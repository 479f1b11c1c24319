use spec_drift::blame::{apply, format_unix_date, parse_porcelain, BlameEngine};
use spec_drift::domain::{Attribution, Divergence, Location, RuleId, Severity};

#[test]
fn parses_minimal_porcelain_block() {
    let raw = "abc1234def5678 10 10 1\n\
               author Ada Lovelace\n\
               author-mail <ada@example.com>\n\
               author-time 1700000000\n\
               author-tz +0000\n\
               committer Ada Lovelace\n\
               committer-mail <ada@example.com>\n\
               committer-time 1700000000\n\
               committer-tz +0000\n\
               summary Fix the foo handler\n\
               filename README.md\n\
               \tUse `foo()` to start.\n";

    let a = parse_porcelain(raw).unwrap();
    assert_eq!(a.commit, "abc1234");
    assert_eq!(a.author, "Ada Lovelace");
    assert_eq!(a.summary, "Fix the foo handler");
    assert_eq!(a.date, "2023-11-14");
}

#[test]
fn rejects_non_hex_sha() {
    let raw = "not-a-sha 1 1 1\nauthor X\nauthor-time 0\nsummary y\n\tz\n";
    assert!(parse_porcelain(raw).is_none());
}

#[test]
fn requires_author_time_and_summary() {
    let raw = "abc1234def5678 1 1 1\nauthor X\n\tcontent\n";
    assert!(parse_porcelain(raw).is_none());
}

#[test]
fn stops_at_first_content_line() {
    // A second blame block must not overwrite the first.
    let raw = "aaaaaaa 1 1 1\n\
               author First Author\n\
               author-time 1700000000\n\
               summary First\n\
               \tcontent\n\
               bbbbbbb 2 2 1\n\
               author Second Author\n\
               author-time 1600000000\n\
               summary Second\n\
               \tcontent\n";
    let a = parse_porcelain(raw).unwrap();
    assert_eq!(a.author, "First Author");
    assert_eq!(a.summary, "First");
}

#[test]
fn format_unix_date_known_values() {
    // 1970-01-01 UTC
    assert_eq!(format_unix_date(0), "1970-01-01");
    // 2000-01-01 UTC = 946684800
    assert_eq!(format_unix_date(946684800), "2000-01-01");
    // 2024-02-29 UTC (leap day) = 1709164800
    assert_eq!(format_unix_date(1709164800), "2024-02-29");
}

#[test]
fn format_unix_date_handles_times_before_the_epoch() {
    // One second before the epoch is still 1969-12-31.
    assert_eq!(format_unix_date(-1), "1969-12-31");
    // The last second of a day stays on that day.
    assert_eq!(format_unix_date(86399), "1970-01-01");
    assert_eq!(format_unix_date(86400), "1970-01-02");
}

#[test]
fn format_unix_date_follows_the_gregorian_leap_rules() {
    // 2000 is a leap year (divisible by 400), 2100 is not (divisible by 100).
    assert_eq!(format_unix_date(951782400), "2000-02-29");
    assert_eq!(format_unix_date(951868800), "2000-03-01");
    assert_eq!(format_unix_date(4107456000), "2100-02-28");
    assert_eq!(format_unix_date(4107542400), "2100-03-01");
    assert_eq!(format_unix_date(253402300799), "9999-12-31");
}

#[test]
fn porcelain_sha_is_shortened_to_seven_characters() {
    let raw = "0123456789abcdef 1 1 1\nauthor A\nauthor-time 86400\nsummary s\n\tline\n";
    let a = parse_porcelain(raw).unwrap();
    assert_eq!(a.commit, "0123456");
    assert_eq!(a.date, "1970-01-02");
}

#[test]
fn porcelain_without_content_line_still_parses() {
    let raw = "abcdef0 1 1 1\nauthor A\nauthor-time 0\nsummary s\n";
    let a = parse_porcelain(raw).unwrap();
    assert_eq!(a.author, "A");
}

#[test]
fn porcelain_rejects_unparseable_author_time() {
    let raw = "abcdef0 1 1 1\nauthor A\nauthor-time soon\nsummary s\n\tline\n";
    assert!(parse_porcelain(raw).is_none());
}

#[test]
fn porcelain_rejects_empty_input() {
    assert!(parse_porcelain("").is_none());
}

struct FakeEngine;
impl BlameEngine for FakeEngine {
    fn blame(&self, _: &str, _: &str, _: u32) -> Option<Attribution> {
        Some(Attribution {
            commit: "deadbee".into(),
            author: "Test Author".into(),
            date: "2025-06-01".into(),
            summary: "Write the README".into(),
        })
    }
}

struct NullEngine;
impl BlameEngine for NullEngine {
    fn blame(&self, _: &str, _: &str, _: u32) -> Option<Attribution> {
        None
    }
}

fn div() -> Divergence {
    Divergence {
        rule: RuleId::SymbolAbsence,
        severity: Severity::Critical,
        location: Location::new("README.md", 42),
        stated: "x".into(),
        reality: "y".into(),
        risk: "z".into(),
        attribution: None,
    }
}

#[test]
fn apply_fills_attribution_from_engine() {
    let divs = apply(vec![div()], ".", &FakeEngine);
    let a = divs[0].attribution.as_ref().unwrap();
    assert_eq!(a.commit, "deadbee");
    assert_eq!(a.author, "Test Author");
}

#[test]
fn apply_leaves_none_when_engine_cannot_resolve() {
    let divs = apply(vec![div()], ".", &NullEngine);
    assert!(divs[0].attribution.is_none());
}

#[test]
fn apply_keeps_every_other_field() {
    let divs = apply(vec![div(), div()], ".", &FakeEngine);
    assert_eq!(divs.len(), 2);
    assert_eq!(divs[1].location, Location::new("README.md", 42));
    assert_eq!(divs[1].stated, "x");
}
