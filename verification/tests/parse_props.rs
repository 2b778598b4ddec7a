use dexporter::clock::{Date, Ts};
use dexporter::parse::{header_date, parse_temp_message, parse_with_headers};
use dexporter::text::{split_lines, trim_chars};

fn chars(s: &str) -> Vec<char> {
    s.chars().collect()
}

fn lines_of(xs: &[&str]) -> Vec<Vec<char>> {
    xs.iter().map(|l| l.chars().collect()).collect()
}

fn june7() -> Date {
    Date { year: 2019, month: 6, day: 7 }
}

/// Seconds since the epoch of 2019-06-07 at the given time of day.
fn june7_secs(h: i64, m: i64, s: i64) -> i64 {
    18054 * 86400 + h * 3600 + m * 60 + s
}

#[test]
fn header_date_parses_day_month_year() {
    assert_eq!(header_date(&chars("---- 7 June 2019 ----")), Some(Date { year: 2019, month: 6, day: 7 }));
    assert_eq!(header_date(&chars("---- 31 December 1999 ----")), Some(Date { year: 1999, month: 12, day: 31 }));
}

#[test]
fn header_date_rejects_malformed_lines() {
    assert_eq!(header_date(&chars("---- 7 Juny 2019 ----")), None);
    assert_eq!(header_date(&chars("---- 31 February 2019 ----")), None);
    assert_eq!(header_date(&chars("---- 7 June 2019 ---")), None);
    assert_eq!(header_date(&chars("--- 7 June 2019 ----")), None);
    assert_eq!(header_date(&chars("---- ----")), None);
    assert_eq!(header_date(&chars("---- 7June 2019 ----")), None);
    assert_eq!(header_date(&chars("ordinary text")), None);
}

#[test]
fn first_line_gives_time_user_and_text() {
    let block = lines_of(&["[10:02:03] alice: hi there"]);
    let m = parse_temp_message(&block, &june7(), None).unwrap();
    assert_eq!(m.timestamp, Ts { secs: june7_secs(10, 2, 3), millis: 0 });
    assert_eq!(m.username, "alice");
    assert_eq!(m.text, "hi there");
    assert!(m.attachments.is_empty());
}

#[test]
fn malformed_first_lines_are_rejected() {
    let d = june7();
    assert!(parse_temp_message(&lines_of(&["10:00:00] alice: hi"]), &d, None).is_none());
    assert!(parse_temp_message(&lines_of(&["[25:00:00] alice: hi"]), &d, None).is_none());
    assert!(parse_temp_message(&lines_of(&["[10:61:00] alice: hi"]), &d, None).is_none());
    assert!(parse_temp_message(&lines_of(&["[10:00] alice: hi"]), &d, None).is_none());
    assert!(parse_temp_message(&lines_of(&["[10:00:00]alice: hi"]), &d, None).is_none());
    assert!(parse_temp_message(&lines_of(&[]), &d, None).is_none());
}

#[test]
fn message_without_colon_has_empty_text() {
    let block = lines_of(&["[10:00:00] somebody started a call"]);
    let m = parse_temp_message(&block, &june7(), None).unwrap();
    assert_eq!(m.username, "somebody started a call");
    assert_eq!(m.text, "");
}

#[test]
fn continuation_lines_join_with_newlines() {
    let block = lines_of(&["[10:00:00] alice: first", "second", "third"]);
    let m = parse_temp_message(&block, &june7(), None).unwrap();
    assert_eq!(m.text, "first\nsecond\nthird");
}

#[test]
fn trailing_attachment_links_come_out_reversed() {
    let block = lines_of(&[
        "[10:00:00] alice: check this",
        "https://cdn.discordapp.com/attachments/1/1/a.png",
        "https://cdn.discordapp.com/attachments/1/2/b.png",
        "",
    ]);
    let m = parse_temp_message(&block, &june7(), None).unwrap();
    assert_eq!(m.text, "check this");
    assert_eq!(
        m.attachments,
        vec![
            "https://cdn.discordapp.com/attachments/1/2/b.png".to_string(),
            "https://cdn.discordapp.com/attachments/1/1/a.png".to_string(),
        ]
    );
}

#[test]
fn link_text_clears_attachments() {
    let block = lines_of(&[
        "[10:00:00] alice: https://cdn.discordapp.com/attachments/1/1/a.png",
        "https://cdn.discordapp.com/attachments/1/2/b.png",
    ]);
    let m = parse_temp_message(&block, &june7(), None).unwrap();
    assert!(m.attachments.is_empty());
    assert_eq!(
        m.text,
        "https://cdn.discordapp.com/attachments/1/1/a.png\nhttps://cdn.discordapp.com/attachments/1/2/b.png"
    );
}

#[test]
fn whole_log_parses_messages_under_headers() {
    let log = lines_of(&[
        "---- 7 June 2019 ----",
        "[10:00:00] alice: hi",
        "[10:00:05] bob: yo",
    ]);
    let msgs = parse_with_headers(&log, None);
    assert_eq!(msgs.len(), 2);
    assert_eq!(msgs[0].username, "alice");
    assert_eq!(msgs[0].timestamp.secs, june7_secs(10, 0, 0));
    assert_eq!(msgs[1].username, "bob");
    assert_eq!(msgs[1].timestamp.secs, june7_secs(10, 0, 5));
}

#[test]
fn retrograde_header_is_message_text() {
    let log = lines_of(&[
        "---- 7 June 2019 ----",
        "[10:00:00] alice: quoting:",
        "---- 1 January 2018 ----",
        "[10:00:05] alice: after",
    ]);
    let msgs = parse_with_headers(&log, None);
    assert_eq!(msgs.len(), 2);
    assert_eq!(msgs[0].text, "quoting:\n---- 1 January 2018 ----");
    // the day did not move backwards
    assert_eq!(msgs[1].timestamp.secs, june7_secs(10, 0, 5));
}

#[test]
fn later_header_advances_the_day() {
    let log = lines_of(&[
        "---- 7 June 2019 ----",
        "[23:59:59] alice: night",
        "---- 8 June 2019 ----",
        "[00:00:01] alice: morning",
    ]);
    let msgs = parse_with_headers(&log, None);
    assert_eq!(msgs.len(), 2);
    assert_eq!(msgs[1].timestamp.secs - msgs[0].timestamp.secs, 2);
}

#[test]
fn lines_before_any_header_are_dropped() {
    let log = lines_of(&["[10:00:00] alice: orphan", "noise"]);
    let msgs = parse_with_headers(&log, None);
    assert_eq!(msgs.len(), 0);
}

#[test]
fn disallowed_usernames_become_continuation_text() {
    let log = lines_of(&[
        "---- 7 June 2019 ----",
        "[10:00:00] alice: hi",
        "[10:00:05] bob: yo",
    ]);
    let allowed = lines_of(&["alice"]);
    let msgs = parse_with_headers(&log, Some(&allowed));
    assert_eq!(msgs.len(), 1);
    assert_eq!(msgs[0].username, "alice");
    assert_eq!(msgs[0].text, "hi\n[10:00:05] bob: yo");
}

#[test]
fn split_lines_handles_terminators() {
    let split = |s: &str| -> Vec<String> {
        split_lines(&chars(s)).iter().map(|l| l.iter().collect()).collect()
    };
    assert_eq!(split("a\nb\r\nc\n"), vec!["a", "b", "c"]);
    assert_eq!(split("a\n\nb"), vec!["a", "", "b"]);
    assert_eq!(split(""), Vec::<String>::new());
    assert_eq!(split("\n"), vec![""]);
}

#[test]
fn trim_strips_surrounding_whitespace() {
    let t = |s: &str| -> String { trim_chars(&chars(s)).iter().collect() };
    assert_eq!(t("  a b \t"), "a b");
    assert_eq!(t("\n\nx\n"), "x");
    assert_eq!(t("   "), "");
    assert_eq!(t("y"), "y");
}
