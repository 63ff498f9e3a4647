//! Tests of the orchestrator and its scoring.

use sloppy::config::{CheckConfig, Config};
use sloppy::value::{TomlTable, TomlValue};

/// A configuration in which only the lexical check runs, banning "delve".
fn lexical_only(penalty_per_flag: u32, max_penalty: u32) -> Config {
    let names = [
        "em_dash_count",
        "trailing_participle",
        "rule_of_three",
        "transition_openers",
        "burstiness",
        "copulative_inflation",
        "formulaic_conclusion",
        "patterned_negation",
        "throat_clearing",
        "chatbot_artifacts",
        "paragraph_uniformity",
        "emphasis_crutches",
        "vague_attribution",
        "wordiness",
    ];
    let mut config = Config::default();
    for name in names {
        let mut cc = CheckConfig::default();
        cc.enabled = false;
        config.insert(name.to_string(), cc);
    }
    let mut lexical = CheckConfig::default();
    lexical.penalty_per_flag = penalty_per_flag;
    lexical.max_penalty = max_penalty;
    let words = TomlTable {
        entries: vec![(
            "simple".to_string(),
            TomlValue::Array(vec![TomlValue::Str("delve".to_string())]),
        )],
    };
    lexical.params = TomlTable { entries: vec![("words".to_string(), TomlValue::Table(words))] };
    config.insert("lexical_blacklist".to_string(), lexical);
    config
}
use sloppy::detector::analyze;

#[test]
fn test_empty_string_returns_zero() {
    let result = analyze("", 30, None);
    assert_eq!(result.score, 0);
    assert!(result.flags.is_empty());
    assert!(result.passed);
}

#[test]
fn test_whitespace_only_returns_zero() {
    let result = analyze("   \n\n\t  ", 30, None);
    assert_eq!(result.score, 0);
    assert!(result.passed);
}

#[test]
fn test_clean_text_scores_low() {
    let clean = "She found fourteen dollars in the pocket of a coat she hadn't worn since 2019. \
                  The coat smelled like a restaurant that no longer exists. \
                  She put the money back.";
    let result = analyze(clean, 30, None);
    assert!(result.score < 30);
    assert!(result.passed);
}

#[test]
fn test_sloppy_text_scores_high() {
    let slop = "This groundbreaking initiative serves as a testament to the vibrant, robust, and crucial \
                 work being done by renowned experts. It's not just research. It's a movement. \
                 Furthermore, the tapestry of collaboration here is breathtaking, highlighting its \
                 potential to shape the evolving landscape of modern science\u{2014}and\u{2014}indeed\u{2014}\
                 leaving an indelible mark on the field. In conclusion, we must delve deeper and foster \
                 greater understanding, cultivating new perspectives that reflect broader trends. \
                 Overall, this stands as a pivotal moment.";
    let result = analyze(slop, 30, None);
    assert!(result.score >= 30);
    assert!(!result.passed);
}

#[test]
fn test_score_bounded_0_to_100() {
    let result = analyze(&"x".repeat(10_000), 30, None);
    assert!(result.score <= 100);
}

#[test]
fn test_custom_threshold_changes_passed() {
    let text = "This serves as a crucial and robust system. Furthermore, it delves into vibrant \
                 new territory, highlighting its groundbreaking potential.";
    let strict = analyze(text, 5, None);
    let lenient = analyze(text, 100, None);
    assert!(!strict.passed);
    assert!(lenient.passed);
}

#[test]
fn test_flags_have_required_fields() {
    let result = analyze("The vibrant tapestry of innovation.", 30, None);
    for flag in &result.flags {
        assert!(!flag.check_name.is_empty());
        assert!(!flag.description.is_empty());
        assert!(!flag.severity.is_empty());
    }
}

#[test]
fn test_all_check_names_represented() {
    let mega_slop = "\
        This groundbreaking work serves as a testament. \
        It delves into the vibrant, robust, and crucial landscape of innovation. \
        She holds the distinction of being renowned. \
        They cultivate and foster the tapestry, showcasing breathtaking results. \
        This stands as a pivotal moment, reflecting broader trends. \
        A pause\u{2014}another pause\u{2014}one more pause. \
        The summit concluded, reflecting the community's deep connection. \
        Make no mistake about it. In order to succeed, many experts agree this is key. \
        \n\nFurthermore, we must note the following. \
        It's not a setback. It's an opportunity. \
        Here's the thing: this matters. \
        Great question! Feel free to ask more. \
        \n\nIn conclusion, this was groundbreaking. \
        The system is safe, efficient, and reliable. ";

    let uniform_block = vec!["The team worked on the project every single day."; 6].join(" ");

    let full_text = format!("{mega_slop}\n\n{uniform_block}");

    let result = analyze(&full_text, 30, None);
    let triggered: std::collections::HashSet<&str> =
        result.flags.iter().map(|f| f.check_name.as_str()).collect();

    let expected = [
        "lexical_blacklist",
        "em_dash_count",
        "trailing_participle",
        "transition_opener",
        "patterned_negation",
        "formulaic_conclusion",
        "rule_of_three",
        "copulative_inflation",
        "burstiness",
        "throat_clearing",
        "chatbot_artifacts",
        // paragraph_uniformity tested separately (requires all paragraphs uniform)
        "emphasis_crutches",
        "vague_attribution",
        "wordiness",
    ];

    let missing: Vec<&&str> = expected
        .iter()
        .filter(|name| !triggered.contains(**name))
        .collect();
    assert!(
        missing.is_empty(),
        "These checks did not fire: {:?}",
        missing
    );
}

#[test]
fn test_single_check_on_short_text_does_not_score_100() {
    // Short uniform-sentence text triggers only burstiness.
    // Before the floor fix this scored 100 (20/20). With the floor
    // the denominator is the sum of the 3 largest check maxes, so
    // a single check alone can't blow up the score.
    let short = "Queue p75 under target across all platforms. \
                  Kochiku p75 has held at seven seconds since October. \
                  Stress test scaled to thirty-eight thousand workers. \
                  New subnet deployed for additional worker capacity. \
                  Artifactory investigation confirmed pull storm was benign. \
                  NFS mount slowdown identified as queue time impact.";
    let result = analyze(short, 30, None);
    assert!(
        result.score < 30,
        "Single-check short text scored {} (expected < 30)",
        result.score
    );
    assert!(result.passed);
}

#[test]
fn test_score_increases_with_more_flags() {
    let light = analyze("The vibrant community gathered.", 30, None);
    let heavy = analyze(
        "The vibrant tapestry of groundbreaking and crucial work serves as a \
         testament to robust innovation. It's not just research. It's a movement. \
         Furthermore, delve deeper into the breathtaking landscape of science. \
         In conclusion, this stands as pivotal. Safe, efficient, and reliable.",
        30,
        None,
    );
    assert!(heavy.score >= light.score);
}


#[test]
fn a_check_penalty_stops_at_its_cap() {
    let text = "delve ".repeat(10);
    let result = analyze(&text, 30, None);
    assert_eq!(result.flags.len(), 10);
    assert_eq!(result.check_scores.len(), 1);
    let (name, cs) = &result.check_scores[0];
    assert_eq!(name, "lexical_blacklist");
    assert_eq!((cs.penalty, cs.max, cs.flags), (60, 60, 10));
    // 60 out of the floor 60 + 30 + 24 = 114.
    assert_eq!(result.score, 52);
    assert!(!result.passed);
}

#[test]
fn breakdown_is_ordered_by_check_name() {
    let result = analyze(
        "The vibrant team delivered \u{2014} again \u{2014} in order to win. \
         It is safe, fast, and cheap.",
        30,
        None,
    );
    let names: Vec<&str> = result.check_scores.iter().map(|(n, _)| n.as_str()).collect();
    let mut sorted = names.clone();
    sorted.sort();
    assert_eq!(names, sorted);
    assert!(names.len() >= 2);
}

#[test]
fn passed_follows_the_threshold_argument_alone() {
    let mut config = Config::default();
    config.threshold = 5;
    let text = "The vibrant community gathered.";
    let with_config = analyze(text, 30, Some(&config));
    let plain = analyze(text, 30, None);
    assert_eq!(with_config.score, plain.score);
    assert_eq!(with_config.passed, with_config.score < 30);
    let explicit = analyze(text, 100, Some(&config));
    assert!(explicit.passed);
    let none = analyze(text, 0, Some(&config));
    assert!(!none.passed);
}

#[test]
fn blank_text_fails_at_threshold_zero() {
    let r = analyze("   \n\t ", 0, None);
    assert_eq!(r.score, 0);
    assert!(r.flags.is_empty());
    assert!(!r.passed);
    assert!(analyze("", 1, None).passed);
}

#[test]
fn breakdown_flag_counts_sum_to_the_flags() {
    let text = "Moreover, we delve into the tapestry\u{2014}a vibrant\u{2014}realm. \
                Furthermore, it serves as a testament.";
    let r = analyze(text, 30, None);
    assert!(!r.flags.is_empty());
    let total: usize = r.check_scores.iter().map(|(_, c)| c.flags as usize).sum();
    assert_eq!(total, r.flags.len());
    // Keyed by the check's configured name, in order; the transition check's
    // flags carry the name "transition_opener".
    assert!(r.check_scores.iter().any(|(n, _)| n == "transition_openers"));
    assert!(r.check_scores.windows(2).all(|w| w[0].0 < w[1].0));
    for (name, c) in &r.check_scores {
        assert!(c.flags >= 1);
        assert!(c.penalty <= c.max);
        assert!(name.as_str() != "transition_opener");
    }
}

#[test]
fn a_disabled_check_raises_nothing() {
    let text = "One pause\u{2014}two pauses\u{2014}three. The end.";
    let plain = analyze(text, 30, None);
    assert!(plain.flags.iter().any(|f| f.check_name == "em_dash_count"));
    let mut config = Config::default();
    let mut cc = CheckConfig::default();
    cc.enabled = false;
    config.insert("em_dash_count".to_string(), cc);
    let result = analyze(text, 30, Some(&config));
    assert!(result.flags.iter().all(|f| f.check_name != "em_dash_count"));
    assert!(result.check_scores.iter().all(|(n, _)| n != "em_dash_count"));
}

#[test]
fn score_follows_double_precision() {
    // 29 / 100 * 100 is 28.999999999999996 in double precision.
    let config = lexical_only(29, 100);
    let result = analyze("We delve.", 30, Some(&config));
    assert_eq!(result.flags.len(), 1);
    assert_eq!(result.check_scores[0].1.penalty, 29);
    assert_eq!(result.score, ((29u32 as f64 / 100u32 as f64) * 100.0).floor() as u32);
    assert_eq!(result.score, 28);
}

#[test]
fn scores_match_double_precision_on_a_grid() {
    for max in [7u32, 30, 57, 100, 113, 1000] {
        for ppf in [1u32, 3, 29, 41, 99] {
            let config = lexical_only(ppf, max);
            let result = analyze("We delve. We delve again.", 30, Some(&config));
            let raw = (2 * ppf).min(max);
            let want = ((raw as f64 / max as f64) * 100.0).floor() as u32;
            assert_eq!(result.score, want.min(100), "ppf {ppf}, max {max}");
        }
    }
}
