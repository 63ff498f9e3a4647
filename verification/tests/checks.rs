//! Tests of the individual checks.

use sloppy::checks::{
    check_burstiness, check_copulative_inflation, check_em_dash_count, check_formulaic_conclusion,
    check_lexical_blacklist, check_patterned_negation, check_rule_of_three,
    check_trailing_participle, check_transition_openers,
};
use sloppy::text::word_count;
use sloppy::value::{FloatValue, TomlTable, TomlValue};

const TRANSITION_OPENERS: &[&str] = &[
    "Moreover",
    "Furthermore",
    "Additionally",
    "Consequently",
    "As a result",
    "In addition",
    "On the other hand",
];

const CONCLUSION_OPENERS: &[&str] = &[
    "In summary",
    "In conclusion",
    "To summarize",
    "To conclude",
    "Overall",
    "Ultimately",
    "In closing",
    "Challenges and Future",
    "Looking ahead",
    "Moving forward",
    "In the end",
];

// --- Lexical blacklist ---

#[test]
fn test_detects_delve() {
    let flags = check_lexical_blacklist("We must delve deeper into the subject.", None);
    assert!(flags.iter().any(|f| f.description.contains("delve")));
}

#[test]
fn test_detects_tapestry() {
    let flags = check_lexical_blacklist("The city's tapestry of cultures is remarkable.", None);
    assert!(!flags.is_empty());
}

#[test]
fn test_detects_testament() {
    let flags =
        check_lexical_blacklist("This building is a testament to human ambition.", None);
    assert!(flags.iter().any(|f| f.description.contains("testament")));
}

#[test]
fn test_detects_vibrant() {
    let flags = check_lexical_blacklist("The vibrant community gathered downtown.", None);
    assert!(!flags.is_empty());
}

#[test]
fn test_detects_robust() {
    let flags = check_lexical_blacklist("A robust system of governance is needed.", None);
    assert!(!flags.is_empty());
}

#[test]
fn test_detects_crucial() {
    let flags = check_lexical_blacklist("Communication is crucial to success.", None);
    assert!(!flags.is_empty());
}

#[test]
fn test_detects_pivotal() {
    let flags = check_lexical_blacklist("This is a pivotal moment in history.", None);
    assert!(!flags.is_empty());
}

#[test]
fn test_detects_foster() {
    let flags = check_lexical_blacklist("We aim to foster a culture of collaboration.", None);
    assert!(!flags.is_empty());
}

#[test]
fn test_detects_cultivate() {
    let flags = check_lexical_blacklist("Leaders must cultivate trust.", None);
    assert!(!flags.is_empty());
}

#[test]
fn test_detects_nestled() {
    let flags = check_lexical_blacklist("The café is nestled in the heart of the city.", None);
    assert!(!flags.is_empty());
}

#[test]
fn test_detects_boasts() {
    let flags = check_lexical_blacklist("The university boasts a world-class faculty.", None);
    assert!(!flags.is_empty());
}

#[test]
fn test_detects_breathtaking() {
    let flags = check_lexical_blacklist("The view is breathtaking.", None);
    assert!(!flags.is_empty());
}

#[test]
fn test_detects_groundbreaking() {
    let flags = check_lexical_blacklist("This is groundbreaking research.", None);
    assert!(!flags.is_empty());
}

#[test]
fn test_detects_showcasing() {
    let flags =
        check_lexical_blacklist("The exhibition showcasing local talent opens Friday.", None);
    assert!(!flags.is_empty());
}

#[test]
fn test_detects_renowned() {
    let flags = check_lexical_blacklist("She is a renowned expert in her field.", None);
    assert!(!flags.is_empty());
}

#[test]
fn test_detects_underscore_verb() {
    let flags = check_lexical_blacklist("These findings underscore the need for reform.", None);
    assert!(flags.iter().any(|f| f.description.contains("underscore")));
}

#[test]
fn test_underscore_not_flagged_as_noun() {
    let flags = check_lexical_blacklist("The variable name uses an underscore.", None);
    assert!(!flags
        .iter()
        .any(|f| f.description.contains("underscore (verb)")));
}

#[test]
fn test_detects_highlight_verb() {
    let flags = check_lexical_blacklist("The report highlights the importance of sleep.", None);
    assert!(flags.iter().any(|f| f.description.contains("highlight")));
}

#[test]
fn test_highlight_noun_not_flagged() {
    let flags = check_lexical_blacklist("The highlight of the evening was the speech.", None);
    assert!(!flags
        .iter()
        .any(|f| f.description.contains("highlight (verb)")));
}

#[test]
fn test_detects_metaphorical_landscape() {
    let flags = check_lexical_blacklist("The landscape of modern finance has shifted.", None);
    assert!(flags.iter().any(|f| f.description.contains("landscape")));
}

#[test]
fn test_literal_landscape_not_flagged() {
    let flags = check_lexical_blacklist("The landscape was covered in snow.", None);
    assert!(!flags
        .iter()
        .any(|f| f.description.contains("landscape (metaphorical)")));
}

#[test]
fn test_detects_a_rich_noun_of() {
    let flags = check_lexical_blacklist("The city offers a rich array of options.", None);
    assert!(flags.iter().any(|f| f.description.contains("a rich")));
}

#[test]
fn test_detects_stands_as_a() {
    let flags = check_lexical_blacklist("The treaty stands as a landmark achievement.", None);
    assert!(flags.iter().any(|f| f.description.contains("stands as a")));
}

#[test]
fn test_detects_serves_as_a() {
    let flags = check_lexical_blacklist("The document serves as a guide.", None);
    assert!(flags.iter().any(|f| f.description.contains("serves as a")));
}

#[test]
fn test_detects_holds_the_distinction() {
    let flags = check_lexical_blacklist("She holds the distinction of being the first.", None);
    assert!(flags
        .iter()
        .any(|f| f.description.contains("holds the distinction")));
}

#[test]
fn test_detects_reflects_broader() {
    let flags = check_lexical_blacklist("This reflects broader trends in society.", None);
    assert!(flags
        .iter()
        .any(|f| f.description.contains("reflects broader")));
}

#[test]
fn test_detects_shaping_the_evolving() {
    let flags =
        check_lexical_blacklist("These forces are shaping the evolving landscape.", None);
    assert!(flags
        .iter()
        .any(|f| f.description.contains("shaping the evolving")));
}

#[test]
fn test_detects_marking_a_pivotal() {
    let flags = check_lexical_blacklist(
        "This decision, marking a pivotal shift, changed everything.",
        None,
    );
    assert!(flags
        .iter()
        .any(|f| f.description.contains("marking a pivotal")));
}

#[test]
fn test_detects_leaving_indelible_mark() {
    let flags = check_lexical_blacklist(
        "He retired, leaving an indelible mark on the institution.",
        None,
    );
    assert!(flags
        .iter()
        .any(|f| f.description.contains("leaving an indelible mark")));
}

#[test]
fn test_clean_text_no_flags() {
    let clean = "She handed him the invoice. He looked at it for a long time. \
                  Then he looked at her. Then at the invoice again. \
                  'Fourteen dollars,' he said. 'For what?' \
                  She pointed at the jar on the counter.";
    let flags = check_lexical_blacklist(clean, None);
    assert!(flags.is_empty());
}

#[test]
fn test_multiple_hits() {
    let text =
        "Vibrant and robust, the initiative serves as a testament to groundbreaking work.";
    let flags = check_lexical_blacklist(text, None);
    assert!(flags.len() >= 4);
}

#[test]
fn test_case_insensitive() {
    let flags = check_lexical_blacklist("DELVE into the data. VIBRANT colours.", None);
    assert!(flags
        .iter()
        .any(|f| f.description.to_lowercase().contains("delve")));
    assert!(flags
        .iter()
        .any(|f| f.description.to_lowercase().contains("vibrant")));
}

// --- Em-dash count ---

#[test]
fn test_zero_em_dashes_passes() {
    assert!(check_em_dash_count("No em dashes here.", None).is_empty());
}

#[test]
fn test_one_em_dash_passes() {
    assert!(check_em_dash_count("A pause\u{2014}and then silence.", None).is_empty());
}

#[test]
fn test_two_em_dashes_flagged() {
    let flags = check_em_dash_count("First\u{2014}second\u{2014}third.", None);
    assert_eq!(flags.len(), 1);
    assert!(flags[0].description.contains("2"));
}

#[test]
fn test_three_em_dashes_flagged() {
    let flags = check_em_dash_count("A\u{2014}B\u{2014}C\u{2014}D.", None);
    assert_eq!(flags.len(), 1);
    assert!(flags[0].description.contains("3"));
}

#[test]
fn test_em_dash_check_name() {
    let flags = check_em_dash_count("X\u{2014}Y\u{2014}Z", None);
    assert_eq!(flags[0].check_name, "em_dash_count");
}

// --- Trailing participle ---

#[test]
fn test_detects_reflecting_the() {
    let flags = check_trailing_participle(
        "The event was a success, reflecting the community's dedication.",
        None,
    );
    assert!(!flags.is_empty());
}

#[test]
fn test_detects_underscoring_its() {
    let flags = check_trailing_participle(
        "The data showed a decline, underscoring its fragility.",
        None,
    );
    assert!(!flags.is_empty());
}

#[test]
fn test_detects_highlighting_a() {
    let flags = check_trailing_participle(
        "The study found no correlation, highlighting a significant gap.",
        None,
    );
    assert!(!flags.is_empty());
}

#[test]
fn test_clean_sentence_passes_trailing() {
    let flags = check_trailing_participle(
        "She walked to the window. Outside it was raining. She closed the blind.",
        None,
    );
    assert!(flags.is_empty());
}

#[test]
fn test_mid_sentence_participle_not_flagged() {
    let flags = check_trailing_participle(
        "Reflecting the sun, the lake shimmered. It was very still.",
        None,
    );
    assert!(flags.is_empty());
}

#[test]
fn test_trailing_participle_check_name() {
    let flags = check_trailing_participle("She smiled, revealing the secret.", None);
    assert!(flags.iter().all(|f| f.check_name == "trailing_participle"));
}

// --- Rule of three ---

#[test]
fn test_detects_adjective_triplet() {
    let flags = check_rule_of_three("The system is safe, efficient, and reliable.", None);
    assert!(!flags.is_empty());
}

#[test]
fn test_detects_item_triplet() {
    let flags = check_rule_of_three("We need bread, butter, and jam.", None);
    assert!(!flags.is_empty());
}

#[test]
fn test_detects_or_variant() {
    let flags = check_rule_of_three("Choose red, blue, or green.", None);
    assert!(!flags.is_empty());
}

#[test]
fn test_pair_not_flagged() {
    let flags = check_rule_of_three("The system is fast and reliable.", None);
    assert!(flags.is_empty());
}

#[test]
fn test_rule_of_three_check_name() {
    let flags = check_rule_of_three("bold, vibrant, and timeless", None);
    assert!(flags.iter().all(|f| f.check_name == "rule_of_three"));
}

#[test]
fn test_clean_prose_passes_rot() {
    assert!(check_rule_of_three("She took two aspirin and lay down.", None).is_empty());
}

// --- Transition openers ---

#[test]
fn test_detects_opener_at_paragraph_start() {
    for opener in TRANSITION_OPENERS {
        let text = format!("First paragraph.\n\n{opener}, this is important.");
        let flags = check_transition_openers(&text, None);
        assert!(!flags.is_empty(), "Expected flag for opener '{opener}'");
    }
}

#[test]
fn test_opener_mid_sentence_not_flagged() {
    let flags =
        check_transition_openers("He said that, moreover, the cost was prohibitive.", None);
    assert!(flags.is_empty());
}

#[test]
fn test_opener_at_text_start_flagged() {
    let flags = check_transition_openers("Furthermore, the results were inconclusive.", None);
    assert!(!flags.is_empty());
}

#[test]
fn test_clean_paragraph_transitions_pass() {
    let text = "She found the receipt behind the couch.\n\n\
                 The amount surprised her. Seven dollars and forty cents.";
    assert!(check_transition_openers(text, None).is_empty());
}

#[test]
fn test_transition_opener_check_name() {
    let flags = check_transition_openers("Additionally, we must consider the cost.", None);
    assert!(flags.iter().all(|f| f.check_name == "transition_opener"));
}

// --- Burstiness ---

#[test]
fn test_uniform_sentences_flagged() {
    let text = "The cat sat on the mat today. \
                 The dog ran after the ball fast. \
                 The bird flew over the house roof. \
                 The fish swam under the old bridge. \
                 The fox hid behind the old tree.";
    let flags = check_burstiness(text, None);
    assert!(
        !flags.is_empty(),
        "Expected burstiness flag for uniform sentences"
    );
}

#[test]
fn test_varied_sentences_pass() {
    let text = "Wait. \
                 The entire infrastructure, built over four decades by people who genuinely believed they \
                 were making something lasting, collapsed in an afternoon because someone forgot to renew \
                 a domain name. \
                 Nobody noticed for three weeks. \
                 By then the domain was owned by a company selling ergonomic chair cushions.";
    let flags = check_burstiness(text, None);
    assert!(flags.is_empty());
}

#[test]
fn test_fewer_than_four_sentences_skipped() {
    assert!(check_burstiness("Short. Also short. Still short.", None).is_empty());
}

#[test]
fn test_burstiness_check_name() {
    let uniform = vec!["This is a sentence of eight words here."; 5].join(" ");
    let flags = check_burstiness(&uniform, None);
    assert!(flags.iter().all(|f| f.check_name == "burstiness"));
}

#[test]
fn test_burstiness_description_contains_std_dev() {
    let uniform = vec!["This is a sentence of eight words here."; 5].join(" ");
    let flags = check_burstiness(&uniform, None);
    if !flags.is_empty() {
        assert!(flags[0].description.contains("std dev"));
    }
}

// --- Copulative inflation ---

#[test]
fn test_detects_serves_as() {
    let flags = check_copulative_inflation("The building serves as a museum.", None);
    assert!(!flags.is_empty());
}

#[test]
fn test_detects_stands_as_cop() {
    let flags = check_copulative_inflation("The treaty stands as a landmark agreement.", None);
    assert!(!flags.is_empty());
}

#[test]
fn test_detects_functions_as() {
    let flags = check_copulative_inflation("The hub functions as a community centre.", None);
    assert!(!flags.is_empty());
}

#[test]
fn test_detects_holds_distinction_of_being() {
    let flags = check_copulative_inflation(
        "She holds the distinction of being the youngest recipient.",
        None,
    );
    assert!(!flags.is_empty());
}

#[test]
fn test_detects_acts_as() {
    let flags = check_copulative_inflation("The park acts as a refuge for residents.", None);
    assert!(!flags.is_empty());
}

#[test]
fn test_clean_text_passes_cop() {
    let flags = check_copulative_inflation(
        "The building is a museum. She is the youngest recipient.",
        None,
    );
    assert!(flags.is_empty());
}

#[test]
fn test_copulative_check_name() {
    let flags = check_copulative_inflation("It serves as a reminder.", None);
    assert!(flags.iter().all(|f| f.check_name == "copulative_inflation"));
}

// --- Formulaic conclusion ---

#[test]
fn test_detects_conclusion_openers() {
    for opener in CONCLUSION_OPENERS {
        let text = format!("The project went well.\n\n{opener}, this was a success.");
        let flags = check_formulaic_conclusion(&text, None);
        assert!(!flags.is_empty(), "Expected flag for '{opener}'");
    }
}

#[test]
fn test_opener_at_text_start_flagged_conclusion() {
    let flags = check_formulaic_conclusion("Overall, the results were positive.", None);
    assert!(!flags.is_empty());
}

#[test]
fn test_clean_ending_passes() {
    let text = "The project wrapped up on Thursday.\n\n\
                 He handed in the keys and drove home.";
    assert!(check_formulaic_conclusion(text, None).is_empty());
}

#[test]
fn test_formulaic_conclusion_check_name() {
    let flags = check_formulaic_conclusion("In conclusion, everything worked out.", None);
    assert!(flags.iter().all(|f| f.check_name == "formulaic_conclusion"));
}

// --- Patterned negation ---

#[test]
fn test_detects_its_not_its() {
    let flags = check_patterned_negation("It's not a bug. It's a feature.", None);
    assert!(!flags.is_empty());
}

#[test]
fn test_detects_not_x_but_y() {
    let flags = check_patterned_negation("Not a setback, but an opportunity.", None);
    assert!(!flags.is_empty());
}

#[test]
fn test_detects_this_isnt_about() {
    let flags = check_patterned_negation("This isn't about money. It's about principle.", None);
    assert!(!flags.is_empty());
}

#[test]
fn test_clean_text_passes_negation() {
    let flags = check_patterned_negation(
        "She preferred coffee. He liked tea. They compromised on water.",
        None,
    );
    assert!(flags.is_empty());
}

#[test]
fn test_patterned_negation_check_name() {
    let flags = check_patterned_negation("It's not broken. It's character.", None);
    assert!(flags.iter().all(|f| f.check_name == "patterned_negation"));
}


// --- Pattern building, word counts and empty samples ---

fn table(entries: Vec<(&str, TomlValue)>) -> TomlTable {
    TomlTable {
        entries: entries.into_iter().map(|(k, v)| (k.to_string(), v)).collect(),
    }
}

fn strs(items: &[&str]) -> TomlValue {
    TomlValue::Array(items.iter().map(|s| TomlValue::Str(s.to_string())).collect())
}

#[test]
fn build_word_patterns_skips_what_does_not_compile() {
    let words = table(vec![(
        "simple",
        TomlValue::Array(vec![TomlValue::Str("a.b".to_string()), TomlValue::Int(7)]),
    )]);
    let patterns = table(vec![(
        "entries",
        TomlValue::Array(vec![strs(&["(", "bad"]), strs(&["fo+", "Foo"]), strs(&["x"])]),
    )]);
    let params = table(vec![
        ("words", TomlValue::Table(words)),
        ("patterns", TomlValue::Table(patterns)),
    ]);
    let built = sloppy::checks::build_word_patterns(&params);
    let labels: Vec<&str> = built.iter().map(|(_, l)| l.as_str()).collect();
    assert_eq!(labels, vec!["a.b", "Foo"]);
    assert_eq!(built[0].0, "(?i)\\ba\\.b\\b");
    assert_eq!(built[1].0, "(?i)fo+");
}

#[test]
fn word_count_adds_over_a_space() {
    let a = "This is a sentence";
    let b = "  of eight words here. ";
    assert_eq!(word_count(&format!("{a} {b}")), word_count(a) + word_count(b));
    assert_eq!(word_count("This is a sentence of eight words here."), 8);
    assert_eq!(word_count(""), 0);
    assert_eq!(word_count(" \t\n"), 0);
}

#[test]
fn burstiness_of_no_sentences() {
    let params = table(vec![("min_sentences", TomlValue::Int(0))]);
    let flags = check_burstiness("", Some(&params));
    assert_eq!(flags.len(), 1);
    assert_eq!(
        flags[0].description,
        "Sentence lengths too uniform (std dev -0.0 < 5). Mean sentence length: NaN words across 0 sentences."
    );
    let at_zero = table(vec![
        ("min_sentences", TomlValue::Int(0)),
        ("std_dev_threshold", TomlValue::Float(FloatValue::Finite(0))),
    ]);
    assert!(check_burstiness("", Some(&at_zero)).is_empty());
    let one = table(vec![
        ("min_sentences", TomlValue::Int(1)),
        ("std_dev_threshold", TomlValue::Float(FloatValue::Finite(-1000))),
    ]);
    let flags = check_burstiness("Just one sentence here.", Some(&one));
    assert_eq!(flags.len(), 1);
    assert!(flags[0].description.contains("std dev NaN < -1)"));
}

#[test]
fn burstiness_needs_four_sentences_by_default() {
    assert!(check_burstiness("Short. Also short. Still short.", None).is_empty());
    let flags = check_burstiness("One two three. One two three. One two three. One two three.", None);
    assert_eq!(flags.len(), 1);
    assert_eq!(flags[0].check_name, "burstiness");
    assert_eq!(flags[0].severity, "warning");
}
