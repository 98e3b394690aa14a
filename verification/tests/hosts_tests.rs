use commitblock::hosts::get_trimmed_host_name;
use commitblock::hosts::initialise_hosts;
use commitblock::hosts::modify_hosts;
use commitblock::hosts::save_to_host;
use commitblock::hosts::HostToggleOption;
use commitblock::text::join_lines;
use commitblock::text::split_lines;

#[test]
fn replace_then_release_then_load() {
    // An empty managed block, nothing else in the file.
    let content = "### CommitBlock\n### End CommitBlock\n";
    let hosts = vec![String::from("a.com"), String::from("b.com")];

    let written = save_to_host(content, &hosts).unwrap();
    assert_eq!(
        written,
        "### CommitBlock\n\
         127.0.0.1\ta.com\n\
         ::1\t\ta.com\n\
         127.0.0.1\tb.com\n\
         ::1\t\tb.com\n\
         ### End CommitBlock\n"
    );

    let released = modify_hosts(&written, HostToggleOption::UNBLOCK).unwrap();
    assert_eq!(
        released,
        "### CommitBlock\n\
         #127.0.0.1\ta.com\n\
         #::1\t\ta.com\n\
         #127.0.0.1\tb.com\n\
         #::1\t\tb.com\n\
         ### End CommitBlock\n"
    );

    let loaded = initialise_hosts(&released);
    assert_eq!(loaded, vec![String::from("a.com"), String::from("b.com")]);
}

#[test]
fn unrelated_lines_survive_replace_and_toggle() {
    let content = "127.0.0.1\tlocalhost\n\
                   ### CommitBlock\n\
                   127.0.0.1\told.com\n\
                   ### End CommitBlock\n\
                   ::1\tip6-localhost\n";
    let hosts = vec![String::from("new.com")];

    // The block is rewritten in place: the lines before and after it stay
    // where they were, byte for byte.
    let written = save_to_host(content, &hosts).unwrap();
    assert_eq!(
        written,
        "127.0.0.1\tlocalhost\n\
         ### CommitBlock\n\
         127.0.0.1\tnew.com\n\
         ::1\t\tnew.com\n\
         ### End CommitBlock\n\
         ::1\tip6-localhost\n"
    );

    let blocked = modify_hosts(&written, HostToggleOption::BLOCK).unwrap();
    assert_eq!(blocked, written);

    let released = modify_hosts(&written, HostToggleOption::UNBLOCK).unwrap();
    assert_eq!(
        released,
        "127.0.0.1\tlocalhost\n\
         ### CommitBlock\n\
         #127.0.0.1\tnew.com\n\
         #::1\t\tnew.com\n\
         ### End CommitBlock\n\
         ::1\tip6-localhost\n"
    );
}

#[test]
fn replace_without_a_block_appends_one() {
    let content = "127.0.0.1\tlocalhost\n";
    let hosts = vec![String::from("a.com")];
    let written = save_to_host(content, &hosts).unwrap();
    assert_eq!(
        written,
        "127.0.0.1\tlocalhost\n\
         ### CommitBlock\n\
         127.0.0.1\ta.com\n\
         ::1\t\ta.com\n\
         ### End CommitBlock\n"
    );
}

#[test]
fn unterminated_block_is_reported_not_truncated() {
    // A begin marker that no end marker closes is an error: nothing is
    // rewritten, toggled or silently dropped.
    let content = "### CommitBlock\nkeepme\n";
    let hosts = vec![String::from("a.com")];
    assert!(save_to_host(content, &hosts).is_err());
    assert!(modify_hosts(content, HostToggleOption::BLOCK).is_err());
    assert!(modify_hosts(content, HostToggleOption::UNBLOCK).is_err());
}

#[test]
fn engage_and_release_are_idempotent() {
    let content = "before\n\
                   ### CommitBlock\n\
                   #127.0.0.1\ta.com\n\
                   127.0.0.1\tb.com\n\
                   ### End CommitBlock\n\
                   after\n";
    let once = modify_hosts(content, HostToggleOption::BLOCK).unwrap();
    let twice = modify_hosts(&once, HostToggleOption::BLOCK).unwrap();
    assert_eq!(once, twice);
    assert!(once.contains("\n127.0.0.1\ta.com\n"));

    let released_once = modify_hosts(content, HostToggleOption::UNBLOCK).unwrap();
    let released_twice = modify_hosts(&released_once, HostToggleOption::UNBLOCK).unwrap();
    assert_eq!(released_once, released_twice);
}

#[test]
fn engage_then_release_comments_every_block_line() {
    let content = "### CommitBlock\n\
                   #127.0.0.1\ta.com\n\
                   127.0.0.1\tb.com\n\
                   ### End CommitBlock\n";
    let engaged = modify_hosts(content, HostToggleOption::BLOCK).unwrap();
    let released = modify_hosts(&engaged, HostToggleOption::UNBLOCK).unwrap();
    assert_eq!(
        released,
        "### CommitBlock\n\
         #127.0.0.1\ta.com\n\
         #127.0.0.1\tb.com\n\
         ### End CommitBlock\n"
    );
}

#[test]
fn load_recognises_every_line_form_and_deduplicates() {
    let content = "ignored\n\
                   ### CommitBlock\n\
                   127.0.0.1\ta.com\n\
                   ::1\t\ta.com\n\
                   #127.0.0.1\tb.com\n\
                   #::1\t\tb.com\n\
                   ### End CommitBlock\n\
                   ignored-too\n";
    let loaded = initialise_hosts(content);
    assert_eq!(loaded, vec![String::from("a.com"), String::from("b.com")]);
}

#[test]
fn load_deduplicates_across_the_whole_block() {
    // A host listed again further down the block still appears once, at
    // its first position.
    let content = "### CommitBlock\n\
                   127.0.0.1\ta.com\n\
                   ::1\t\ta.com\n\
                   127.0.0.1\tb.com\n\
                   ::1\t\tb.com\n\
                   127.0.0.1\ta.com\n\
                   ::1\t\ta.com\n\
                   ### End CommitBlock\n";
    let loaded = initialise_hosts(content);
    assert_eq!(loaded, vec![String::from("a.com"), String::from("b.com")]);
}

#[test]
fn load_without_a_block_finds_nothing() {
    let loaded = initialise_hosts("127.0.0.1\tlocalhost\n");
    assert_eq!(loaded, Vec::<String>::new());
}

#[test]
fn load_passes_unrecognised_lines_through() {
    let content = "### CommitBlock\n\
                   odd-line\n\
                   ### End CommitBlock\n";
    let loaded = initialise_hosts(content);
    assert_eq!(loaded, vec![String::from("odd-line")]);
}

#[test]
fn trimmed_host_name_strips_each_prefix() {
    assert_eq!(
        get_trimmed_host_name(String::from("127.0.0.1\ta.com"), "127.0.0.1\t"),
        "a.com"
    );
    assert_eq!(
        get_trimmed_host_name(String::from("#127.0.0.1\ta.com"), "#127.0.0.1\t"),
        "a.com"
    );
    assert_eq!(
        get_trimmed_host_name(String::from("::1\t\ta.com"), "127.0.0.1\t"),
        "a.com"
    );
    assert_eq!(
        get_trimmed_host_name(String::from("#::1\t\ta.com"), "#127.0.0.1\t"),
        "a.com"
    );
    assert_eq!(
        get_trimmed_host_name(String::from("plain"), "127.0.0.1\t"),
        "plain"
    );
}

#[test]
fn splitting_and_joining_lines_round_trips() {
    let lines = split_lines("a\nb\n\nc");
    assert_eq!(
        lines,
        vec![String::from("a"), String::from("b"), String::from(""), String::from("c")]
    );
    assert_eq!(join_lines(&lines), "a\nb\n\nc\n");
    assert_eq!(split_lines(""), Vec::<String>::new());
    assert_eq!(split_lines("x\n"), vec![String::from("x")]);
}
