//! The contribution threshold engine.
//!
//! Once per polling cycle the engine decides, from the persisted threshold
//! status, today's date and the configured goal, whether the hosts must be
//! blocked and the external contribution count queried, or whether the goal
//! already stands met today.  All decisions are pure functions; the caller
//! performs the file writes, the network query and the sleeps around them.
use vstd::prelude::*;
use vstd::string::StrSliceExecFns;
use vstd::string::StringExecFns;

use crate::text::digit_char;
use crate::text::digit_val;
use crate::text::is_digit;
use crate::text::str_eq;

verus! {

pub const CONFIG_FILE_PATH: &'static str = "config.toml";

pub const STATE_FILE_PATH: &'static str = "tmp/state_file.json";

pub const GH_API_PATH: &'static str = "https://api.github.com/graphql";

pub const GRAPHQL_QUERY: &'static str = "query($userName:String!) { user(login: $userName){ contributionsCollection { contributionCalendar { totalContributions weeks { contributionDays { contributionCount date } } } } } }";

/// A calendar date, held as plain year, month and day numbers.
#[derive(Clone, Copy, PartialEq, Eq, Structural, Debug)]
pub struct Date {
    pub year: i32,
    pub month: u32,
    pub day: u32,
}

/// The month and day numbers lie in their calendar ranges.
pub open spec fn date_wf(d: Date) -> bool {
    1 <= d.month <= 12 && 1 <= d.day <= 31
}

/// `a` falls strictly before `b` in calendar order.
pub open spec fn date_lt(a: Date, b: Date) -> bool {
    a.year < b.year || (a.year == b.year && (a.month < b.month || (a.month == b.month && a.day
        < b.day)))
}

/// Executable calendar comparison, equal to `date_lt`.
pub fn date_before(a: &Date, b: &Date) -> (r: bool)
    ensures
        r == date_lt(*a, *b),
{
    a.year < b.year || (a.year == b.year && (a.month < b.month || (a.month == b.month && a.day
        < b.day)))
}

/// `y` is a leap year of the Gregorian calendar.
pub open spec fn leap_year(y: int) -> bool {
    y % 4 == 0 && (y % 100 != 0 || y % 400 == 0)
}

/// The number of days of month `m` of year `y`.
pub open spec fn days_in_month(y: int, m: int) -> int {
    if m == 2 {
        if leap_year(y) {
            29
        } else {
            28
        }
    } else if m == 4 || m == 6 || m == 9 || m == 11 {
        30
    } else {
        31
    }
}

/// A real calendar date within the four-digit years.
pub open spec fn valid_date(d: Date) -> bool {
    0 <= d.year <= 9999 && 1 <= d.month <= 12 && 1 <= d.day <= days_in_month(
        d.year as int,
        d.month as int,
    )
}

fn leap_year_exec(y: i32) -> (r: bool)
    requires
        y >= 0,
    ensures
        r == leap_year(y as int),
{
    y % 4 == 0 && (y % 100 != 0 || y % 400 == 0)
}

fn days_in_month_exec(y: i32, m: u32) -> (r: u32)
    requires
        y >= 0,
    ensures
        r == days_in_month(y as int, m as int),
{
    if m == 2 {
        if leap_year_exec(y) {
            29
        } else {
            28
        }
    } else if m == 4 || m == 6 || m == 9 || m == 11 {
        30
    } else {
        31
    }
}

/// Four decimal digits, zero padded.
pub open spec fn pad4(n: int) -> Seq<char> {
    seq![
        digit_char(n / 1000 % 10),
        digit_char(n / 100 % 10),
        digit_char(n / 10 % 10),
        digit_char(n % 10),
    ]
}

/// Two decimal digits, zero padded.
pub open spec fn pad2(n: int) -> Seq<char> {
    seq![digit_char(n / 10 % 10), digit_char(n % 10)]
}

/// The canonical text of a date: zero-padded year, month and day, joined
/// with dashes.
pub open spec fn date_rep(d: Date) -> Seq<char> {
    pad4(d.year as int) + seq!['-'] + pad2(d.month as int) + seq!['-'] + pad2(d.day as int)
}

/// Write a date in its canonical dashed text form.
pub fn format_date(d: &Date) -> (r: String)
    requires
        0 <= d.year <= 9999,
        d.month <= 99,
        d.day <= 99,
    ensures
        r@ == date_rep(*d),
{
    let y = d.year as u32;
    let mut s = String::new();
    s.append(crate::text::digit_str(y / 1000 % 10));
    s.append(crate::text::digit_str(y / 100 % 10));
    s.append(crate::text::digit_str(y / 10 % 10));
    s.append(crate::text::digit_str(y % 10));
    s.append("-");
    s.append(crate::text::digit_str(d.month / 10 % 10));
    s.append(crate::text::digit_str(d.month % 10));
    s.append("-");
    s.append(crate::text::digit_str(d.day / 10 % 10));
    s.append(crate::text::digit_str(d.day % 10));
    proof {
        reveal_strlit("-");
        assert("-"@ =~= seq!['-']);
        assert(s@ =~= date_rep(*d));
    }
    s
}

/// `s` has the dashed shape of a date: four digits, dash, two digits,
/// dash, two digits.
pub open spec fn date_rep_shape(s: Seq<char>) -> bool {
    &&& s.len() == 10
    &&& is_digit(s[0])
    &&& is_digit(s[1])
    &&& is_digit(s[2])
    &&& is_digit(s[3])
    &&& s[4] == '-'
    &&& is_digit(s[5])
    &&& is_digit(s[6])
    &&& s[7] == '-'
    &&& is_digit(s[8])
    &&& is_digit(s[9])
}

/// The year a dash-shaped text names.
pub open spec fn rep_year(s: Seq<char>) -> int {
    (digit_val(s[0]) * 1000 + digit_val(s[1]) * 100 + digit_val(s[2]) * 10 + digit_val(
        s[3],
    )) as int
}

/// The month a dash-shaped text names.
pub open spec fn rep_month(s: Seq<char>) -> int {
    (digit_val(s[5]) * 10 + digit_val(s[6])) as int
}

/// The day a dash-shaped text names.
pub open spec fn rep_day(s: Seq<char>) -> int {
    (digit_val(s[8]) * 10 + digit_val(s[9])) as int
}

/// The date a dash-shaped text names.
pub open spec fn date_of_rep(s: Seq<char>) -> Date {
    (Date { year: rep_year(s) as i32, month: rep_month(s) as u32, day: rep_day(s) as u32 })
}

proof fn lemma_digit_char_val(c: char)
    requires
        is_digit(c),
    ensures
        digit_char(digit_val(c) as int) == c,
{
    let v = digit_val(c) as int;
    if v == 0 {
        assert(c as int == 48);
        assert(c == '0');
    } else if v == 1 {
        assert(c == '1');
    } else if v == 2 {
        assert(c == '2');
    } else if v == 3 {
        assert(c == '3');
    } else if v == 4 {
        assert(c == '4');
    } else if v == 5 {
        assert(c == '5');
    } else if v == 6 {
        assert(c == '6');
    } else if v == 7 {
        assert(c == '7');
    } else if v == 8 {
        assert(c == '8');
    } else {
        assert(c == '9');
    }
}

proof fn lemma_rep_roundtrip(s: Seq<char>)
    requires
        date_rep_shape(s),
    ensures
        date_rep(date_of_rep(s)) == s,
{
    let d = date_of_rep(s);
    let a = digit_val(s[0]) as int;
    let b = digit_val(s[1]) as int;
    let c = digit_val(s[2]) as int;
    let e = digit_val(s[3]) as int;
    assert(d.year as int == a * 1000 + b * 100 + c * 10 + e);
    assert(0 <= a <= 9 && 0 <= b <= 9 && 0 <= c <= 9 && 0 <= e <= 9);
    assert((a * 1000 + b * 100 + c * 10 + e) / 1000 % 10 == a) by (nonlinear_arith)
        requires
            0 <= a <= 9 && 0 <= b <= 9 && 0 <= c <= 9 && 0 <= e <= 9,
    ;
    assert((a * 1000 + b * 100 + c * 10 + e) / 100 % 10 == b) by (nonlinear_arith)
        requires
            0 <= a <= 9 && 0 <= b <= 9 && 0 <= c <= 9 && 0 <= e <= 9,
    ;
    assert((a * 1000 + b * 100 + c * 10 + e) / 10 % 10 == c) by (nonlinear_arith)
        requires
            0 <= a <= 9 && 0 <= b <= 9 && 0 <= c <= 9 && 0 <= e <= 9,
    ;
    assert((a * 1000 + b * 100 + c * 10 + e) % 10 == e) by (nonlinear_arith)
        requires
            0 <= a <= 9 && 0 <= b <= 9 && 0 <= c <= 9 && 0 <= e <= 9,
    ;
    let m1 = digit_val(s[5]) as int;
    let m2 = digit_val(s[6]) as int;
    assert((m1 * 10 + m2) / 10 % 10 == m1) by (nonlinear_arith)
        requires
            0 <= m1 <= 9 && 0 <= m2 <= 9,
    ;
    assert((m1 * 10 + m2) % 10 == m2) by (nonlinear_arith)
        requires
            0 <= m1 <= 9 && 0 <= m2 <= 9,
    ;
    let d1 = digit_val(s[8]) as int;
    let d2 = digit_val(s[9]) as int;
    assert((d1 * 10 + d2) / 10 % 10 == d1) by (nonlinear_arith)
        requires
            0 <= d1 <= 9 && 0 <= d2 <= 9,
    ;
    assert((d1 * 10 + d2) % 10 == d2) by (nonlinear_arith)
        requires
            0 <= d1 <= 9 && 0 <= d2 <= 9,
    ;
    lemma_digit_char_val(s[0]);
    lemma_digit_char_val(s[1]);
    lemma_digit_char_val(s[2]);
    lemma_digit_char_val(s[3]);
    lemma_digit_char_val(s[5]);
    lemma_digit_char_val(s[6]);
    lemma_digit_char_val(s[8]);
    lemma_digit_char_val(s[9]);
    assert(date_rep(d) =~= s);
}

fn read_digit(s: &str, i: usize) -> (r: Option<u32>)
    requires
        i < s@.len(),
    ensures
        r is Some <==> is_digit(s@[i as int]),
        r is Some ==> r->0 == digit_val(s@[i as int]) && r->0 <= 9,
{
    let c = s.get_char(i);
    let v: u32 = c as u32;
    if 48 <= v && v <= 57 {
        Some(v - 48)
    } else {
        None
    }
}

/// Read a date from its canonical dashed text form.  Exactly the texts of
/// that shape naming a real calendar date are accepted; everything else
/// yields `None`.
pub fn parse_date(s: &str) -> (r: Option<Date>)
    ensures
        r is Some <==> date_rep_shape(s@) && valid_date(date_of_rep(s@)),
        r is Some ==> r->0 == date_of_rep(s@) && s@ == date_rep(r->0),
{
    if s.unicode_len() != 10 {
        return None;
    }
    if s.get_char(4) != '-' || s.get_char(7) != '-' {
        return None;
    }
    let d0 = match read_digit(s, 0) {
        Some(v) => v,
        None => { return None; },
    };
    let d1 = match read_digit(s, 1) {
        Some(v) => v,
        None => { return None; },
    };
    let d2 = match read_digit(s, 2) {
        Some(v) => v,
        None => { return None; },
    };
    let d3 = match read_digit(s, 3) {
        Some(v) => v,
        None => { return None; },
    };
    let m1 = match read_digit(s, 5) {
        Some(v) => v,
        None => { return None; },
    };
    let m2 = match read_digit(s, 6) {
        Some(v) => v,
        None => { return None; },
    };
    let e1 = match read_digit(s, 8) {
        Some(v) => v,
        None => { return None; },
    };
    let e2 = match read_digit(s, 9) {
        Some(v) => v,
        None => { return None; },
    };
    let year: u32 = d0 * 1000 + d1 * 100 + d2 * 10 + d3;
    let month: u32 = m1 * 10 + m2;
    let day: u32 = e1 * 10 + e2;
    let date = Date { year: year as i32, month, day };
    proof {
        assert(date_rep_shape(s@));
        assert(date == date_of_rep(s@));
    }
    if month < 1 || month > 12 {
        return None;
    }
    if day < 1 || day > days_in_month_exec(year as i32, month) {
        return None;
    }
    proof {
        assert(valid_date(date));
        lemma_rep_roundtrip(s@);
    }
    Some(date)
}

/// The persisted threshold record: the date the goal was last met, and the
/// goal value met then.
#[derive(Clone, Copy, PartialEq, Eq, Debug)]
pub struct ContributionThresholdStatus {
    pub threshold_met_date: Option<Date>,
    pub threshold_met_goal: Option<u32>,
}

/// The status of a first run: nothing recorded.
pub open spec fn empty_status() -> ContributionThresholdStatus {
    (ContributionThresholdStatus { threshold_met_date: None, threshold_met_goal: None })
}

impl Default for ContributionThresholdStatus {
    /// The empty record, used whenever no prior state can be read.
    fn default() -> (s: ContributionThresholdStatus)
        ensures
            s == empty_status(),
    {
        ContributionThresholdStatus { threshold_met_date: None, threshold_met_goal: None }
    }
}

/// The goal value the status records, zero when none is recorded.
pub open spec fn stored_goal(s: ContributionThresholdStatus) -> u32 {
    match s.threshold_met_goal {
        Some(g) => g,
        None => 0,
    }
}

/// The status no longer counts as met: nothing is recorded, or the
/// recorded date lies before today, or the configured goal has risen above
/// the recorded one.  A recorded date of today or later, with a recorded
/// goal at least the configured one, still counts.
pub open spec fn status_stale(s: ContributionThresholdStatus, today: Date, goal: u32) -> bool {
    match s.threshold_met_date {
        None => true,
        Some(d) => date_lt(d, today) || stored_goal(s) < goal,
    }
}

/// The goal and user name the engine works against.
pub struct Config {
    pub github_username: String,
    pub contribution_goal: u32,
}

impl Default for Config {
    /// The configuration used when no configuration file exists: an empty
    /// user name and a goal of one contribution.
    fn default() -> (c: Config)
        ensures
            c.github_username@ == Seq::<char>::empty(),
            c.contribution_goal == 1,
    {
        Config { github_username: String::new(), contribution_goal: 1 }
    }
}

/// What a polling cycle must do, decided before any outside call.
pub enum CycleStart {
    /// The threshold is stale: block the hosts first, then query the
    /// contribution count, starting from the cleared state.
    BlockAndQuery { state: ContributionThresholdStatus },
    /// The threshold stands met today: skip the external query this cycle
    /// and report the goal itself as the progress.
    AlreadyMet { progress: u32 },
}

/// Decide one cycle's opening step from the persisted status, today's
/// date and the configured goal.  A stale status clears the record and
/// demands blocking before the query; a status met today skips the query.
pub fn begin_cycle(state: &ContributionThresholdStatus, today: &Date, goal: u32) -> (r:
    CycleStart)
    ensures
        status_stale(*state, *today, goal) ==> r == (CycleStart::BlockAndQuery {
            state: empty_status(),
        }),
        !status_stale(*state, *today, goal) ==> r == (CycleStart::AlreadyMet { progress: goal }),
{
    let stale: bool = match state.threshold_met_date {
        None => true,
        Some(d) => {
            let recorded: u32 = match state.threshold_met_goal {
                Some(g) => g,
                None => 0,
            };
            date_before(&d, today) || recorded < goal
        },
    };
    if stale {
        CycleStart::BlockAndQuery {
            state: ContributionThresholdStatus {
                threshold_met_date: None,
                threshold_met_goal: None,
            },
        }
    } else {
        CycleStart::AlreadyMet { progress: goal }
    }
}

/// The record written when the goal is met: today's date and the goal met.
pub fn record_contribution_goal_met(today: &Date, goal: u32) -> (s: ContributionThresholdStatus)
    ensures
        s.threshold_met_date == Some(*today),
        s.threshold_met_goal == Some(goal),
{
    ContributionThresholdStatus {
        threshold_met_date: Some(*today),
        threshold_met_goal: Some(goal),
    }
}

/// What a cycle must do once the contribution count has come back.
pub struct CycleEnd {
    /// The count reached the configured goal this cycle.
    pub goal_met: bool,
    /// The record to persist, present exactly when the goal was met; the
    /// hosts are released at the same moment.
    pub new_state: Option<ContributionThresholdStatus>,
}

/// Decide one cycle's closing step from the queried count: on reaching the
/// goal, record today and the goal, to be persisted while the hosts are
/// released; otherwise change nothing.
pub fn finish_cycle(count: u32, goal: u32, today: &Date) -> (r: CycleEnd)
    ensures
        r.goal_met == (count >= goal),
        count >= goal ==> r.new_state == Some(
            ContributionThresholdStatus {
                threshold_met_date: Some(*today),
                threshold_met_goal: Some(goal),
            },
        ),
        count < goal ==> r.new_state is None,
{
    if count >= goal {
        CycleEnd { goal_met: true, new_state: Some(record_contribution_goal_met(today, goal)) }
    } else {
        CycleEnd { goal_met: false, new_state: None }
    }
}

/// One day of the contribution calendar: its date text and its count.
pub struct ContributionDay {
    pub date: String,
    pub count: u32,
}

/// The count of the first day whose date text equals `today`, zero when no
/// day matches.
pub open spec fn count_on_day(days: Seq<ContributionDay>, today: Seq<char>) -> u32
    decreases days.len(),
{
    if days.len() == 0 {
        0u32
    } else if days[0].date@ == today {
        days[0].count
    } else {
        count_on_day(days.drop_first(), today)
    }
}

/// Find today's contribution count in the calendar days: the first day
/// whose date text equals `today` gives its count, and a calendar without
/// today's entry counts as zero.
pub fn find_contribution_count_today(days: &Vec<ContributionDay>, today: &str) -> (r: u32)
    ensures
        r == count_on_day(days@, today@),
{
    let ghost dv = days@;
    let mut i: usize = 0;
    proof {
        assert(dv.skip(0) =~= dv);
    }
    while i < days.len()
        invariant
            i <= days.len(),
            dv == days@,
            count_on_day(dv, today@) == count_on_day(dv.skip(i as int), today@),
        decreases days.len() - i,
    {
        if str_eq(days[i].date.as_str(), today) {
            proof {
                assert(dv.skip(i as int)[0] == dv[i as int]);
            }
            return days[i].count;
        }
        proof {
            assert(dv.skip(i as int)[0] == dv[i as int]);
            assert(dv.skip(i as int).drop_first() =~= dv.skip(i + 1));
        }
        i += 1;
    }
    proof {
        assert(dv.skip(days.len() as int).len() == 0);
    }
    0
}

/// A recorded date before today makes the status stale, whatever goal it
/// records: the next cycle clears the record and blocks the hosts before
/// any external query.
pub proof fn lemma_earlier_date_is_stale(d: Date, g: u32, today: Date, goal: u32)
    requires
        date_lt(d, today),
    ensures
        status_stale(
            ContributionThresholdStatus {
                threshold_met_date: Some(d),
                threshold_met_goal: Some(g),
            },
            today,
            goal,
        ),
{
}

/// A record of today (or later) for at least the configured goal is not
/// stale: the next cycle skips the external query entirely.
pub proof fn lemma_met_today_not_stale(d: Date, g: u32, today: Date, goal: u32)
    requires
        !date_lt(d, today),
        g >= goal,
    ensures
        !status_stale(
            ContributionThresholdStatus {
                threshold_met_date: Some(d),
                threshold_met_goal: Some(g),
            },
            today,
            goal,
        ),
{
}

/// Raising the configured goal above the recorded one makes the status
/// stale even when the recorded date is today itself.
pub proof fn lemma_goal_increase_is_stale(d: Date, g: u32, today: Date, goal: u32)
    requires
        g < goal,
    ensures
        status_stale(
            ContributionThresholdStatus {
                threshold_met_date: Some(d),
                threshold_met_goal: Some(g),
            },
            today,
            goal,
        ),
{
}

/// Relies on chrono: `Local::now().date_naive()` is today's date in the
/// local timezone, and `Datelike::month` and `Datelike::day` range over
/// 1..=12 and 1..=31.
#[verifier::external_body]
pub fn today_local() -> (d: Date)
    ensures
        date_wf(d),
{
    let now = chrono::Local::now().date_naive();
    Date {
        year: chrono::Datelike::year(&now),
        month: chrono::Datelike::month(&now),
        day: chrono::Datelike::day(&now),
    }
}

/// Relies on chrono: `Utc::now().date_naive()` is today's date in UTC,
/// with `Datelike` accessors in their documented ranges, as above.
#[verifier::external_body]
pub fn today_utc() -> (d: Date)
    ensures
        date_wf(d),
{
    let now = chrono::Utc::now().date_naive();
    Date {
        year: chrono::Datelike::year(&now),
        month: chrono::Datelike::month(&now),
        day: chrono::Datelike::day(&now),
    }
}

} // verus!
