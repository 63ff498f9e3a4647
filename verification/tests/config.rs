//! Tests of configuration loading, merging and the voice directive built from it.

use sloppy::config::{dump_lines, effective_threshold, parse_config, CheckConfig, Config, DumpLine};
use sloppy::defaults::DEFAULTS_TOML;
use sloppy::load_config;
use sloppy::detector::analyze_checked;
use sloppy::report::report_text;
use sloppy::text::trim_is_empty;
use sloppy::value::{deep_merge, FloatValue, TomlTable, TomlValue};
use sloppy::voice::{
    build_lexical_section, build_punctuation_section, build_structure_section, build_tone_section,
    generate_chat_prompt, generate_voice_directive,
};

fn float_value(f: f64) -> FloatValue {
    if f.is_nan() {
        FloatValue::NotANumber
    } else if f == f64::INFINITY {
        FloatValue::Infinity
    } else if f == f64::NEG_INFINITY {
        FloatValue::NegInfinity
    } else {
        FloatValue::Finite((f * 1000.0).round() as i64)
    }
}

fn value(v: &toml::Value) -> TomlValue {
    match v {
        toml::Value::String(s) => TomlValue::Str(s.clone()),
        toml::Value::Integer(i) => TomlValue::Int(*i),
        toml::Value::Float(f) => TomlValue::Float(float_value(*f)),
        toml::Value::Boolean(b) => TomlValue::Bool(*b),
        toml::Value::Datetime(d) => TomlValue::Datetime(d.to_string()),
        toml::Value::Array(a) => TomlValue::Array(a.iter().map(value).collect()),
        toml::Value::Table(t) => TomlValue::Table(table(t)),
    }
}

fn table(t: &toml::Table) -> TomlTable {
    TomlTable { entries: t.iter().map(|(k, v)| (k.clone(), value(v))).collect() }
}

fn parse(s: &str) -> TomlTable {
    table(&toml::from_str::<toml::Table>(s).unwrap())
}

fn default_config() -> Config {
    load_config(parse(DEFAULTS_TOML), None)
}

fn config_with(overrides: &str) -> Config {
    load_config(parse(DEFAULTS_TOML), Some(&parse(overrides)))
}

fn get_int(t: &TomlTable, outer: &str, inner: &str) -> i64 {
    t.get(outer).unwrap().as_table().unwrap().get(inner).unwrap().as_integer().unwrap()
}

// ---------------------------------------------------------------------------
// Loading and merging
// ---------------------------------------------------------------------------

#[test]
fn test_loads_defaults() {
    let config = default_config();
    assert_eq!(config.threshold, 30);
    assert!(config.get("lexical_blacklist").is_some());
    assert!(config.get("burstiness").is_some());
    assert_eq!(config.checks.len(), 15);
}

#[test]
fn test_all_checks_enabled_by_default() {
    let config = default_config();
    for (name, cc) in &config.checks {
        assert!(cc.enabled, "Check {name} should be enabled by default");
    }
}

#[test]
fn test_deep_merge_override_scalar() {
    let base = parse("[general]\nthreshold = 30");
    let over = parse("[general]\nthreshold = 20");
    let result = deep_merge(base, &over);
    assert_eq!(get_int(&result, "general", "threshold"), 20);
}

#[test]
fn test_deep_merge_preserves_unmentioned_keys() {
    let base = parse("[general]\nthreshold = 30\n\n[other]\nval = \"x\"");
    let over = parse("[general]\nthreshold = 20");
    let result = deep_merge(base, &over);
    assert!(result.contains_key("other"));
}

#[test]
fn test_deep_merge_list_replaced() {
    let base = parse("words = [\"a\", \"b\", \"c\"]");
    let over = parse("words = [\"x\", \"y\"]");
    let result = deep_merge(base, &over);
    let words = result.get("words").unwrap().as_array().unwrap();
    assert_eq!(words.len(), 2);
}

#[test]
fn test_parse_config_threshold() {
    let raw = parse("[general]\nthreshold = 20\n\n[checks]");
    let config = parse_config(&raw);
    assert_eq!(config.threshold, 20);
}

#[test]
fn test_parse_check_config() {
    let raw = parse(
        r#"
[general]
threshold = 30

[checks.lexical_blacklist]
enabled = true
penalty_per_flag = 8
max_penalty = 40
severity = "warning"

[checks.lexical_blacklist.words]
simple = ["delve"]
"#,
    );
    let config = parse_config(&raw);
    let cc = config.get("lexical_blacklist").unwrap();
    assert!(cc.enabled);
    assert_eq!(cc.penalty_per_flag, 8);
    assert_eq!(cc.max_penalty, 40);
    assert!(cc.params.contains_key("words"));
}

#[test]
fn test_defaults_for_missing_fields() {
    let raw = parse("[checks.custom_check]\nenabled = true");
    let config = parse_config(&raw);
    let cc = config.get("custom_check").unwrap();
    assert_eq!(cc.penalty_per_flag, 10);
    assert_eq!(cc.max_penalty, 20);
}

#[test]
fn test_load_with_override_file() {
    let config = config_with("[general]\nthreshold = 15\n");
    assert_eq!(config.threshold, 15);
    assert!(config.get("lexical_blacklist").is_some());
}

#[test]
fn test_explicit_path() {
    let config = config_with("[general]\nthreshold = 50\n");
    assert_eq!(config.threshold, 50);
}

#[test]
fn defaults_match_the_documented_weights() {
    let config = default_config();
    let expected: &[(&str, u32, u32)] = &[
        ("lexical_blacklist", 8, 60),
        ("em_dash_count", 10, 10),
        ("trailing_participle", 10, 30),
        ("rule_of_three", 5, 20),
        ("transition_openers", 8, 24),
        ("burstiness", 20, 20),
        ("copulative_inflation", 5, 20),
        ("formulaic_conclusion", 10, 20),
        ("patterned_negation", 5, 15),
        ("throat_clearing", 8, 24),
        ("chatbot_artifacts", 10, 20),
        ("paragraph_uniformity", 15, 15),
        ("emphasis_crutches", 5, 15),
        ("vague_attribution", 5, 15),
        ("wordiness", 3, 12),
    ];
    for (name, ppf, max) in expected {
        let cc = config.get(name).unwrap();
        assert_eq!(cc.penalty_per_flag, *ppf, "{name}");
        assert_eq!(cc.max_penalty, *max, "{name}");
    }
}

#[test]
fn defaults_keep_check_parameters_apart_from_settings() {
    let config = default_config();
    let burst = config.get("burstiness").unwrap();
    assert!(!burst.params.contains_key("enabled"));
    assert!(!burst.params.contains_key("max_penalty"));
    assert_eq!(
        burst.params.get("std_dev_threshold").unwrap().as_float(),
        Some(FloatValue::Finite(5000))
    );
    assert_eq!(burst.params.get("min_sentences").unwrap().as_integer(), Some(4));
}

#[test]
fn non_table_check_entries_are_ignored() {
    let config = parse_config(&parse("[checks]\nstray = 3\n\n[checks.real]\nmax_penalty = 7\n"));
    assert_eq!(config.checks.len(), 1);
    assert!(config.get("stray").is_none());
    assert_eq!(config.get("real").unwrap().max_penalty, 7);
    assert_eq!(config.threshold, 30);
}

#[test]
fn threshold_that_is_not_an_integer_falls_back() {
    let config = parse_config(&parse("[general]\nthreshold = \"high\"\n"));
    assert_eq!(config.threshold, 30);
}

#[test]
fn nested_tables_merge_and_keep_base_entries() {
    let base = parse("[a]\nx = 1\ny = 2\n\n[a.inner]\nkeep = true\n");
    let over = parse("[a]\ny = 5\n\n[a.inner]\nadded = \"v\"\n");
    let result = deep_merge(base, &over);
    let a = result.get("a").unwrap().as_table().unwrap();
    assert_eq!(a.get("x").unwrap().as_integer(), Some(1));
    assert_eq!(a.get("y").unwrap().as_integer(), Some(5));
    let inner = a.get("inner").unwrap().as_table().unwrap();
    assert_eq!(inner.get("keep").unwrap().as_bool(), Some(true));
    assert!(inner.get("added").unwrap().as_str() == Some("v"));
}

#[test]
fn a_scalar_over_a_table_replaces_it() {
    let base = parse("[a]\nx = 1\n");
    let over = parse("a = 3\n");
    let result = deep_merge(base, &over);
    assert_eq!(result.get("a").unwrap().as_integer(), Some(3));
}

#[test]
fn override_disables_one_check_and_keeps_its_weights() {
    let config = config_with("[checks.em_dash_count]\nenabled = false\n");
    let cc = config.get("em_dash_count").unwrap();
    assert!(!cc.enabled);
    assert_eq!(cc.penalty_per_flag, 10);
    assert_eq!(cc.max_penalty, 10);
    assert!(config.get("burstiness").unwrap().enabled);
}

#[test]
fn insert_replaces_a_check_of_the_same_name() {
    let mut config = Config::default();
    assert_eq!(config.threshold, 30);
    config.insert("a".to_string(), CheckConfig::default());
    let mut second = CheckConfig::default();
    second.max_penalty = 99;
    config.insert("a".to_string(), second);
    config.insert("b".to_string(), CheckConfig::default());
    assert_eq!(config.checks.len(), 2);
    assert_eq!(config.get("a").unwrap().max_penalty, 99);
    assert_eq!(config.checks[1].0, "b");
}

#[test]
fn check_config_default_values() {
    let cc = CheckConfig::default();
    assert!(cc.enabled);
    assert_eq!(cc.penalty_per_flag, 10);
    assert_eq!(cc.max_penalty, 20);
    assert_eq!(cc.severity, "warning");
    assert!(cc.params.entries.is_empty());
}

#[test]
fn only_enables_exactly_one_check() {
    let mut config = default_config();
    config.apply_overrides(Some("lexical_blacklist"), &vec![]);
    for (name, cc) in &config.checks {
        assert_eq!(cc.enabled, name == "lexical_blacklist", "{name}");
    }
}

#[test]
fn disable_turns_off_the_named_checks() {
    let mut config = default_config();
    config.apply_overrides(None, &vec!["burstiness".to_string(), "rule_of_three".to_string()]);
    assert!(!config.get("burstiness").unwrap().enabled);
    assert!(!config.get("rule_of_three").unwrap().enabled);
    assert!(config.get("wordiness").unwrap().enabled);
    assert_eq!(config.checks.len(), 15);
}

#[test]
fn disable_wins_over_only() {
    let mut config = default_config();
    config.apply_overrides(Some("wordiness"), &vec!["wordiness".to_string()]);
    assert!(config.checks.iter().all(|(_, cc)| !cc.enabled));
}

#[test]
fn threshold_from_the_command_line_wins() {
    let config = config_with("[general]\nthreshold = 15\n");
    assert_eq!(effective_threshold(Some(40), &config), 40);
    assert_eq!(effective_threshold(None, &config), 15);
}

// ---------------------------------------------------------------------------
// The voice directive
// ---------------------------------------------------------------------------

#[test]
fn test_generates_non_empty_directive() {
    let directive = generate_voice_directive(&default_config());
    assert!(directive.len() > 100);
}

#[test]
fn test_contains_lexical_section() {
    let directive = generate_voice_directive(&default_config());
    assert!(directive.contains("LEXICAL RESTRICTIONS"));
    assert!(directive.contains("delve"));
}

#[test]
fn test_contains_punctuation_section() {
    let directive = generate_voice_directive(&default_config());
    assert!(directive.contains("PUNCTUATION AND SYNTAX"));
    assert!(directive.contains("em-dash"));
}

#[test]
fn test_contains_structure_section() {
    let directive = generate_voice_directive(&default_config());
    assert!(directive.contains("RHYTHM AND STRUCTURE"));
    assert!(directive.to_lowercase().contains("sentence length"));
}

#[test]
fn test_contains_tone_section() {
    let directive = generate_voice_directive(&default_config());
    assert!(directive.contains("TONE"));
    assert!(directive.contains("hedging"));
}

#[test]
fn test_reflects_config_changes() {
    let config = config_with("[checks.em_dash_count]\nenabled = false\n");
    let directive = generate_voice_directive(&config);
    assert!(!directive.to_lowercase().contains("em-dash"));
}

#[test]
fn test_custom_words_appear() {
    let config = config_with("[checks.lexical_blacklist.words]\nsimple = [\"synergy\", \"leverage\"]\n");
    let directive = generate_voice_directive(&config);
    assert!(directive.contains("synergy"));
    assert!(directive.contains("leverage"));
}

#[test]
fn directive_sections_are_separated_by_blank_lines() {
    let config = default_config();
    let directive = generate_voice_directive(&config);
    let lexical = build_lexical_section(&config.get("lexical_blacklist").unwrap().params);
    let expected = [
        "[System-level writing constraints \u{2014} apply to ALL generated content]".to_string(),
        lexical,
        build_punctuation_section(&config),
        build_structure_section(&config),
        build_tone_section(&config),
    ]
    .join("\n\n");
    assert_eq!(directive, expected);
}

#[test]
fn directive_without_lexical_check_has_no_lexical_section() {
    let config = config_with("[checks.lexical_blacklist]\nenabled = false\n");
    let directive = generate_voice_directive(&config);
    assert!(!directive.contains("LEXICAL RESTRICTIONS"));
    assert!(directive.starts_with("[System-level writing constraints"));
}

#[test]
fn lexical_section_lists_words_and_quoted_phrases() {
    let params = parse(
        "[words]\nsimple = [\"alpha\", \"beta\"]\n\n[patterns]\nentries = [[\"a+\", \"first\"], [\"b\"], [\"c\", \"third\"]]\n",
    );
    assert_eq!(
        build_lexical_section(&params),
        "LEXICAL RESTRICTIONS:\nNever use these words: alpha, beta.\nNever use these phrases: \"first\", \"third\".\nDo not use promotional superlatives or inflate the significance of mundane things."
    );
}

#[test]
fn lexical_section_without_lists() {
    assert_eq!(
        build_lexical_section(&TomlTable::new()),
        "LEXICAL RESTRICTIONS:\nDo not use promotional superlatives or inflate the significance of mundane things."
    );
}

#[test]
fn em_dash_allowance_is_stated() {
    let config = config_with("[checks.em_dash_count]\nmax_allowed = 2\n");
    let section = build_punctuation_section(&config);
    assert!(section.contains(
        "- Maximum 2 em-dash(\u{2014}) per piece. Prefer parentheses or semicolons for asides."
    ));
    let config = config_with("[checks.em_dash_count]\nmax_allowed = -3\n");
    assert!(build_punctuation_section(&config).contains("- Maximum -3 em-dash"));
    let section = build_punctuation_section(&default_config());
    assert!(section.contains(
        "- Do not use em-dashes (\u{2014}). Use parentheses, semicolons, or commas instead."
    ));
}

#[test]
fn em_dash_rule_without_a_limit_allows_one_like_the_check() {
    let mut config = Config::default();
    config.insert("em_dash_count".to_string(), CheckConfig::default());
    let section = build_punctuation_section(&config);
    assert!(section.contains(
        "- Maximum 1 em-dash(\u{2014}) per piece. Prefer parentheses or semicolons for asides."
    ));
    assert!(!section.contains("Do not use em-dashes"));
    // The detector allows exactly that one em-dash.
    let one = analyze_checked("A pause\u{2014}and then silence.", 30, Some(&config)).unwrap();
    assert!(one.flags.iter().all(|f| f.check_name != "em_dash_count"));
    let two = analyze_checked("One\u{2014}two\u{2014}three.", 30, Some(&config)).unwrap();
    assert!(two.flags.iter().any(|f| f.check_name == "em_dash_count"));
}

#[test]
fn chat_prompts_frame_the_directive() {
    let config = default_config();
    let directive = generate_voice_directive(&config);
    let cleanup = generate_chat_prompt(&config, "cleanup");
    assert!(cleanup.starts_with("You are a prose editor"));
    assert!(cleanup.ends_with("[PASTE YOUR TEXT HERE]"));
    assert!(cleanup.contains(&directive));
    let write = generate_chat_prompt(&config, "write");
    assert!(write.starts_with("You are a writer who produces clean, human-sounding prose"));
    assert!(write.contains(&directive));
    assert!(!write.contains("PASTE YOUR TEXT HERE"));
    assert_eq!(write.matches('[').count(), directive.matches('[').count());
}

#[test]
fn punctuation_section_of_an_empty_configuration() {
    assert_eq!(build_punctuation_section(&Config::default()), "PUNCTUATION AND SYNTAX:");
    assert_eq!(build_structure_section(&Config::default()), "RHYTHM AND STRUCTURE:");
}

#[test]
fn transition_openers_are_listed() {
    let config = config_with("[checks.transition_openers]\nbanned = [\"Moreover\", \"Also\"]\n");
    assert!(build_punctuation_section(&config)
        .contains("- Do not start paragraphs with: Moreover, Also."));
}

#[test]
fn tone_section_quotes_the_first_four_conclusion_openers() {
    let section = build_tone_section(&default_config());
    assert!(section.contains(
        "- No formulaic conclusions. Never use \"In summary\", \"In conclusion\", \"To summarize\", \"To conclude\", etc."
    ));
    assert!(section.ends_with(
        "- Anchor writing in specific, unusual, concrete details rather than\n  generic abstractions."
    ));
}

#[test]
fn tone_section_of_an_empty_configuration() {
    assert_eq!(
        build_tone_section(&Config::default()),
        "TONE:\n- Take definitive, committed stances. No balanced-perspective hedging.\n- State facts directly without inflating their importance.\n- Anchor writing in specific, unusual, concrete details rather than\n  generic abstractions."
    );
}

#[test]
fn chat_prompts_wrap_the_directive() {
    let config = default_config();
    let directive = generate_voice_directive(&config);
    let cleanup = generate_chat_prompt(&config, "cleanup");
    assert!(cleanup.starts_with("You are a prose editor"));
    assert!(cleanup.contains(&format!("Rules to follow:\n\n{directive}\n\nAdditional guidance:")));
    assert!(cleanup.ends_with("[PASTE YOUR TEXT HERE]"));
    let generate = generate_chat_prompt(&config, "generate");
    assert!(generate.starts_with("You are a writer who produces clean, human-sounding prose."));
    assert!(generate.contains(&directive));
    assert_eq!(generate_chat_prompt(&config, "anything"), generate);
}

// ---------------------------------------------------------------------------
// Analysis under the built-in configuration
// ---------------------------------------------------------------------------

#[test]
fn clean_text_passes_under_the_defaults() {
    let config = default_config();
    let result = analyze_checked("She put the money back.", 30, Some(&config)).unwrap();
    assert!(result.passed);
    assert_eq!(report_text(&result, false, "")[0], format!("Score: {}/100  PASS", result.score));
}

#[test]
fn sloppy_text_fails_under_the_defaults() {
    let text = "This groundbreaking initiative serves as a testament to the vibrant, robust, and crucial \
                work being done by renowned experts. Here's the thing: it's worth noting that the tapestry \
                of collaboration here is breathtaking, highlighting its potential. Great question! I'd be happy \
                to help explain. Furthermore, the paradigm shift is transformative.\n\n\
                In conclusion, we must delve deeper. Make no mistake, many experts agree this matters.";
    let config = default_config();
    let result = analyze_checked(text, 30, Some(&config)).unwrap();
    assert!(!result.passed);
    assert!(report_text(&result, false, "")[0].ends_with("FAIL"));
    let labels: Vec<&str> = result.flags.iter().map(|f| f.description.as_str()).collect();
    assert!(labels.contains(&"Banned phrase \"it's worth noting\" found"));
    assert!(labels.contains(&"Banned phrase \"paradigm shift\" found"));
    assert!(labels.contains(&"Banned phrase \"paradigm\" found"));
}

#[test]
fn lenient_threshold_passes_under_the_defaults() {
    let config = default_config();
    let threshold = effective_threshold(Some(100), &config);
    let result = analyze_checked("The vibrant community gathered.", threshold, Some(&config)).unwrap();
    assert!(result.passed);
    let quiet = report_text(&result, true, "");
    assert_eq!(quiet.len(), 1);
    assert!(quiet[0].starts_with("Score:"));
}

#[test]
fn blank_input_is_recognised() {
    assert!(trim_is_empty(""));
    assert!(trim_is_empty(" \n\t "));
    assert!(!trim_is_empty(" a "));
}

#[test]
fn transition_openers_come_from_the_configuration() {
    let config = config_with("[checks.transition_openers]\nbanned = [\"Also\"]\n");
    let result = analyze_checked("Also, this.\n\nMoreover, that.", 30, Some(&config)).unwrap();
    let openers: Vec<&str> = result
        .flags
        .iter()
        .filter(|f| f.check_name == "transition_opener")
        .map(|f| f.description.as_str())
        .collect();
    assert_eq!(openers, vec!["Paragraph opens with banned transition \"Also\""]);
}

#[test]
fn directive_words_are_flagged_by_the_check() {
    let config = config_with("[checks.lexical_blacklist.words]\nsimple = [\"synergy\", \"c.d\"]\n");
    let directive = generate_voice_directive(&config);
    assert!(directive.contains("Never use these words: synergy, c.d."));
    let result = analyze_checked("Synergy matters; c.d too, not cxd.", 30, Some(&config)).unwrap();
    let lexical: Vec<&str> = result
        .flags
        .iter()
        .filter(|f| f.check_name == "lexical_blacklist")
        .map(|f| f.description.as_str())
        .collect();
    assert!(lexical.contains(&"Banned phrase \"synergy\" found"));
    assert_eq!(lexical.iter().filter(|d| **d == "Banned phrase \"c.d\" found").count(), 1);
}

#[test]
fn dump_lists_general_then_checks_by_name() {
    let mut config = Config::default();
    config.threshold = 15;
    let mut b = CheckConfig::default();
    b.enabled = false;
    b.params = TomlTable {
        entries: vec![
            ("zeta".to_string(), TomlValue::Int(2)),
            ("alpha".to_string(), TomlValue::Str("x".to_string())),
        ],
    };
    config.insert("wordiness".to_string(), b);
    config.insert("burstiness".to_string(), CheckConfig::default());
    let lines = dump_lines(&config);
    let text: Vec<String> = lines
        .iter()
        .map(|l| match l {
            DumpLine::Text(t) => t.clone(),
            DumpLine::Param(k, _) => format!("{k} = ?"),
        })
        .collect();
    assert_eq!(
        text,
        vec![
            "[general]",
            "threshold = 15",
            "",
            "[checks.burstiness]",
            "enabled = true",
            "penalty_per_flag = 10",
            "max_penalty = 20",
            "severity = \"warning\"",
            "",
            "[checks.wordiness]",
            "enabled = false",
            "penalty_per_flag = 10",
            "max_penalty = 20",
            "severity = \"warning\"",
            "alpha = ?",
            "zeta = ?",
            "",
        ]
    );
    match &lines[14] {
        DumpLine::Param(_, TomlValue::Str(s)) => assert_eq!(s, "x"),
        _ => panic!("expected the alpha parameter"),
    }
}

#[test]
fn dump_of_the_defaults_names_the_threshold() {
    let lines = dump_lines(&default_config());
    assert!(matches!(&lines[1], DumpLine::Text(t) if t == "threshold = 30"));
}
