use commitblock::engine::begin_cycle;
use commitblock::engine::find_contribution_count_today;
use commitblock::engine::finish_cycle;
use commitblock::engine::format_date;
use commitblock::engine::parse_date;
use commitblock::engine::today_local;
use commitblock::engine::today_utc;
use commitblock::engine::ContributionDay;
use commitblock::engine::ContributionThresholdStatus;
use commitblock::engine::CycleStart;
use commitblock::engine::Date;
use commitblock::text::parse_u32;
use commitblock::text::u32_to_string;

fn status(date: Option<Date>, goal: Option<u32>) -> ContributionThresholdStatus {
    ContributionThresholdStatus { threshold_met_date: date, threshold_met_goal: goal }
}

#[test]
fn stale_date_blocks_before_querying() {
    let today = Date { year: 2024, month: 11, day: 1 };
    let yesterday = Date { year: 2024, month: 10, day: 31 };
    match begin_cycle(&status(Some(yesterday), Some(5)), &today, 5) {
        CycleStart::BlockAndQuery { state } => {
            assert_eq!(state.threshold_met_date, None);
            assert_eq!(state.threshold_met_goal, None);
        }
        CycleStart::AlreadyMet { .. } => panic!("a stale date must block and query"),
    }
}

#[test]
fn met_today_skips_the_query() {
    let today = Date { year: 2024, month: 11, day: 1 };
    match begin_cycle(&status(Some(today), Some(5)), &today, 5) {
        CycleStart::AlreadyMet { progress } => assert_eq!(progress, 5),
        CycleStart::BlockAndQuery { .. } => panic!("a goal met today must skip the query"),
    }
}

#[test]
fn raised_goal_invalidates_today_record() {
    let today = Date { year: 2024, month: 11, day: 1 };
    match begin_cycle(&status(Some(today), Some(5)), &today, 10) {
        CycleStart::BlockAndQuery { state } => {
            assert_eq!(state.threshold_met_date, None);
        }
        CycleStart::AlreadyMet { .. } => panic!("a raised goal must invalidate the record"),
    }
}

#[test]
fn lowered_goal_keeps_today_record() {
    let today = Date { year: 2024, month: 11, day: 1 };
    match begin_cycle(&status(Some(today), Some(10)), &today, 5) {
        CycleStart::AlreadyMet { progress } => assert_eq!(progress, 5),
        CycleStart::BlockAndQuery { .. } => panic!("a lowered goal stays satisfied"),
    }
}

#[test]
fn future_date_still_counts_as_met() {
    let today = Date { year: 2024, month: 11, day: 1 };
    let tomorrow = Date { year: 2024, month: 11, day: 2 };
    match begin_cycle(&status(Some(tomorrow), Some(5)), &today, 5) {
        CycleStart::AlreadyMet { .. } => {}
        CycleStart::BlockAndQuery { .. } => panic!("a future date is not before today"),
    }
}

#[test]
fn first_cycles_block_then_record_on_meeting_the_goal() {
    // State file absent: the empty status.
    let today = Date { year: 2024, month: 11, day: 1 };
    let empty = <ContributionThresholdStatus as Default>::default();
    let start = begin_cycle(&empty, &today, 5);
    let cleared = match start {
        CycleStart::BlockAndQuery { state } => state,
        CycleStart::AlreadyMet { .. } => panic!("an absent state must block and query"),
    };
    // First cycle: three contributions out of five.
    let end = finish_cycle(3, 5, &today);
    assert!(!end.goal_met);
    assert_eq!(end.new_state, None);
    // Next cycle: still stale, queried again, now five contributions.
    match begin_cycle(&cleared, &today, 5) {
        CycleStart::BlockAndQuery { .. } => {}
        CycleStart::AlreadyMet { .. } => panic!("an empty state is stale"),
    }
    let end = finish_cycle(5, 5, &today);
    assert!(end.goal_met);
    let recorded = end.new_state.expect("meeting the goal must persist a record");
    assert_eq!(recorded.threshold_met_date, Some(today));
    assert_eq!(recorded.threshold_met_goal, Some(5));
    // The cycle after that skips the query.
    match begin_cycle(&recorded, &today, 5) {
        CycleStart::AlreadyMet { progress } => assert_eq!(progress, 5),
        CycleStart::BlockAndQuery { .. } => panic!("a fresh record must skip the query"),
    }
}

#[test]
fn contribution_count_takes_the_first_matching_day() {
    let days = vec![
        ContributionDay { date: String::from("2024-10-31"), count: 7 },
        ContributionDay { date: String::from("2024-11-01"), count: 3 },
        ContributionDay { date: String::from("2024-11-01"), count: 9 },
    ];
    assert_eq!(find_contribution_count_today(&days, "2024-11-01"), 3);
    assert_eq!(find_contribution_count_today(&days, "2024-10-31"), 7);
    assert_eq!(find_contribution_count_today(&days, "2024-12-25"), 0);
    assert_eq!(find_contribution_count_today(&Vec::new(), "2024-11-01"), 0);
}

#[test]
fn dates_format_and_parse_canonically() {
    let d = Date { year: 2024, month: 1, day: 11 };
    assert_eq!(format_date(&d), "2024-01-11");
    assert_eq!(parse_date("2024-01-11"), Some(d));
    assert_eq!(parse_date(&format_date(&d)), Some(d));
    assert_eq!(parse_date("0001-12-31"), Some(Date { year: 1, month: 12, day: 31 }));
}

#[test]
fn malformed_or_impossible_dates_are_rejected() {
    assert_eq!(parse_date(""), None);
    assert_eq!(parse_date("2024-1-11"), None);
    assert_eq!(parse_date("2024/01/11"), None);
    assert_eq!(parse_date("2024-13-01"), None);
    assert_eq!(parse_date("2024-00-10"), None);
    assert_eq!(parse_date("2024-02-30"), None);
    assert_eq!(parse_date("2023-02-29"), None);
    assert_eq!(parse_date("2024-02-29"), Some(Date { year: 2024, month: 2, day: 29 }));
    assert_eq!(parse_date("2100-02-29"), None);
    assert_eq!(parse_date("2000-02-29"), Some(Date { year: 2000, month: 2, day: 29 }));
    assert_eq!(parse_date("01/11/2024"), None);
}

#[test]
fn numbers_print_and_parse_in_decimal() {
    assert_eq!(u32_to_string(0), "0");
    assert_eq!(u32_to_string(5), "5");
    assert_eq!(u32_to_string(57), "57");
    assert_eq!(u32_to_string(4294967295), "4294967295");
    assert_eq!(parse_u32("57"), Some(57));
    assert_eq!(parse_u32("+57"), Some(57));
    assert_eq!(parse_u32("0"), Some(0));
    assert_eq!(parse_u32(""), None);
    assert_eq!(parse_u32("+"), None);
    assert_eq!(parse_u32("5x"), None);
    assert_eq!(parse_u32("4294967295"), Some(u32::MAX));
    assert_eq!(parse_u32("4294967296"), None);
}

#[test]
fn the_clock_yields_well_formed_dates() {
    let l = today_local();
    assert!((1..=12).contains(&l.month));
    assert!((1..=31).contains(&l.day));
    let u = today_utc();
    assert!((1..=12).contains(&u.month));
    assert!((1..=31).contains(&u.day));
    // The two clocks read the same moment: they differ by at most a day.
    let fl = format_date(&l);
    let fu = format_date(&u);
    assert_eq!(fl.len(), 10);
    assert_eq!(fu.len(), 10);
}
