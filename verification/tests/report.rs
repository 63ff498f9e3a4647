//! Tests of the plain-text report, the severity counts and the names of the
//! checks that fired.

use sloppy::detector::analyze;
use sloppy::models::{CheckScore, SlopFlag, SlopResult};
use sloppy::report::{checks_triggered, count_severity, report_text, score_text, text_less};

fn sample() -> SlopResult {
    SlopResult {
        score: 42,
        flags: vec![
            SlopFlag::warning("lexical_blacklist", "Banned phrase \"delve\" found", "...\"delve\"..."),
            SlopFlag::info("rule_of_three", "Rule-of-three triplet detected", ""),
            SlopFlag::warning("lexical_blacklist", "Banned phrase \"vibrant\" found", "x"),
        ],
        passed: false,
        check_scores: vec![
            ("lexical_blacklist".to_string(), CheckScore { penalty: 16, max: 60, flags: 2 }),
            ("rule_of_three".to_string(), CheckScore { penalty: 5, max: 20, flags: 1 }),
        ],
    }
}

#[test]
fn quiet_report_is_the_score_line() {
    let r = sample();
    assert_eq!(report_text(&r, true, ""), vec!["Score: 42/100  FAIL".to_string()]);
    assert_eq!(report_text(&r, true, "a.md: "), vec!["a.md: Score: 42/100  FAIL".to_string()]);
}

#[test]
fn clean_report() {
    let r = SlopResult { score: 0, flags: vec![], passed: true, check_scores: vec![] };
    assert_eq!(
        report_text(&r, false, ""),
        vec![
            "Score: 0/100  PASS".to_string(),
            String::new(),
            "  No flags detected. Text looks clean.".to_string(),
        ]
    );
}

#[test]
fn full_report_lines() {
    let lines = report_text(&sample(), false, "");
    let expected = vec![
        "Score: 42/100  FAIL",
        "",
        "  lexical_blacklist         16/60   (2 flags)",
        "  rule_of_three              5/20   (1 flag)",
        "",
        "  [warning]  lexical_blacklist: Banned phrase \"delve\" found",
        "             ...\"delve\"...",
        "  [info]     rule_of_three: Rule-of-three triplet detected",
        "  [warning]  lexical_blacklist: Banned phrase \"vibrant\" found",
        "             x",
        "",
        "3 flag(s) from 2 check(s): 2 warnings, 1 info",
    ];
    assert_eq!(lines, expected);
}

#[test]
fn report_matches_rust_formatting() {
    let r = sample();
    let lines = report_text(&r, false, "");
    for (i, (name, cs)) in r.check_scores.iter().enumerate() {
        let want = format!(
            "  {name:24} {penalty:>3}/{max:<3}  ({flags} flag{s})",
            penalty = cs.penalty,
            max = cs.max,
            flags = cs.flags,
            s = if cs.flags == 1 { "" } else { "s" },
        );
        assert_eq!(lines[2 + i], want);
    }
}

#[test]
fn long_names_are_not_cut() {
    let r = SlopResult {
        score: 100,
        flags: vec![SlopFlag::new("a_check_name_longer_than_24", "d", "", "severity-long")],
        passed: false,
        check_scores: vec![(
            "a_check_name_longer_than_24".to_string(),
            CheckScore { penalty: 1234, max: 5, flags: 1 },
        )],
    };
    let lines = report_text(&r, false, "");
    assert_eq!(lines[2], "  a_check_name_longer_than_24 1234/5    (1 flag)");
    assert_eq!(lines[4], "  [severity-long] a_check_name_longer_than_24: d");
    assert_eq!(lines[6], "1 flag(s) from 1 check(s): 0 warnings, 0 info");
}

#[test]
fn score_line_text() {
    assert_eq!(score_text("", 7, true), "Score: 7/100  PASS");
}

#[test]
fn severity_counts() {
    let r = sample();
    assert_eq!(count_severity(&r.flags, "warning"), 2);
    assert_eq!(count_severity(&r.flags, "info"), 1);
    assert_eq!(count_severity(&r.flags, "error"), 0);
}

#[test]
fn triggered_checks_are_sorted_and_unique() {
    let flags = vec![
        SlopFlag::warning("zeta", "", ""),
        SlopFlag::warning("alpha", "", ""),
        SlopFlag::info("zeta", "", ""),
        SlopFlag::info("mid", "", ""),
        SlopFlag::info("alpha", "", ""),
    ];
    assert_eq!(checks_triggered(&flags), vec!["alpha", "mid", "zeta"]);
    assert!(checks_triggered(&vec![]).is_empty());
}

#[test]
fn triggered_checks_follow_byte_order() {
    let flags = vec![
        SlopFlag::warning("b", "", ""),
        SlopFlag::warning("B", "", ""),
        SlopFlag::warning("ab", "", ""),
        SlopFlag::warning("a", "", ""),
        SlopFlag::warning("\u{e9}", "", ""),
    ];
    let mut want: Vec<&str> = vec!["b", "B", "ab", "a", "\u{e9}"];
    want.sort();
    assert_eq!(checks_triggered(&flags), want);
}

#[test]
fn text_order() {
    assert!(text_less("a", "b"));
    assert!(text_less("a", "ab"));
    assert!(!text_less("ab", "a"));
    assert!(!text_less("same", "same"));
    assert!(text_less("", "x"));
    assert!(text_less("Z", "a"));
}

#[test]
fn report_of_an_analysis() {
    let result = analyze("The vibrant tapestry of innovation.", 30, None);
    let lines = report_text(&result, false, "");
    assert!(lines[0].starts_with("Score: "));
    assert!(lines.iter().any(|l| l.contains("lexical_blacklist")));
    assert_eq!(
        checks_triggered(&result.flags),
        vec!["lexical_blacklist".to_string()]
    );
}
