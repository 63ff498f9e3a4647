//! Tests of the phrase checks, the paragraph check, configured patterns, and
//! the text helpers the checks rest on.

use sloppy::checks::{
    check_burstiness, check_chatbot_artifacts, check_em_dash_count, check_emphasis_crutches,
    check_lexical_blacklist, check_paragraph_uniformity, check_throat_clearing,
    check_transition_openers, check_vague_attribution, check_wordiness, paragraphs, sentences,
    snippet_around,
};
use sloppy::text::word_count;
use sloppy::value::{FloatValue, TomlTable, TomlValue};

fn table(entries: Vec<(&str, TomlValue)>) -> TomlTable {
    TomlTable { entries: entries.into_iter().map(|(k, v)| (k.to_string(), v)).collect() }
}

fn strings(xs: &[&str]) -> TomlValue {
    TomlValue::Array(xs.iter().map(|s| TomlValue::Str(s.to_string())).collect())
}

#[test]
fn throat_clearing_phrases() {
    let flags = check_throat_clearing("Here's the thing: we shipped it. The truth is, nobody cared.", None);
    let descs: Vec<&str> = flags.iter().map(|f| f.description.as_str()).collect();
    assert_eq!(
        descs,
        vec!["Throat-clearing phrase \"Here's the thing\"", "Throat-clearing phrase \"The truth is\""]
    );
    assert!(flags.iter().all(|f| f.severity == "warning" && f.check_name == "throat_clearing"));
    assert_eq!(flags[0].location, "...\"Here's the thing: we shipped it\"...");
    assert!(check_throat_clearing("She put the money back.", None).is_empty());
}

#[test]
fn chatbot_artifact_phrases() {
    let flags = check_chatbot_artifacts("Great question! I'd be happy to help. Hope this helps.", None);
    assert_eq!(flags.len(), 3);
    assert_eq!(flags[0].description, "Chatbot artifact \"Great question!\"");
    assert_eq!(flags[1].description, "Chatbot artifact \"I'd be happy to\"");
    assert!(flags.iter().all(|f| f.severity == "warning"));
}

#[test]
fn emphasis_crutch_phrases() {
    let flags = check_emphasis_crutches("It failed. Full stop. Let that sink in.", None);
    assert_eq!(flags.len(), 2);
    assert_eq!(flags[0].description, "Emphasis crutch \"Full stop.\"");
    assert!(flags.iter().all(|f| f.severity == "info"));
}

#[test]
fn vague_attribution_phrases() {
    let flags = check_vague_attribution("Studies show this works, and many experts agree.", None);
    assert_eq!(flags.len(), 2);
    assert!(flags.iter().all(|f| f.check_name == "vague_attribution"));
    assert!(check_vague_attribution("Smith (2019) measured it.", None).is_empty());
}

#[test]
fn wordy_constructions() {
    let flags = check_wordiness("In order to win, due to the fact that we must, we ran.", None);
    let labels: Vec<&str> = flags.iter().map(|f| f.description.as_str()).collect();
    assert_eq!(
        labels,
        vec![
            "Wordy construction \"in order to\"",
            "Wordy construction \"due to the fact that\"",
            "Wordy construction \"the fact that\"",
        ]
    );
    assert_eq!(flags[0].description, "Wordy construction \"in order to\"");
    assert!(flags.iter().all(|f| f.severity == "info"));
}

#[test]
fn custom_patterns_replace_the_built_in_ones() {
    let params = table(vec![("patterns", TomlValue::Array(vec![strings(&["zz+", "snore"])]))]);
    let flags = check_wordiness("in order to zzz", Some(&params));
    assert_eq!(flags.len(), 1);
    assert_eq!(flags[0].description, "Wordy construction \"snore\"");
}

#[test]
fn uniform_paragraphs_are_flagged() {
    let para = "One sentence here. Another one here.";
    let text = [para; 4].join("\n\n");
    let flags = check_paragraph_uniformity(&text, None);
    assert_eq!(flags.len(), 1);
    assert_eq!(flags[0].check_name, "paragraph_uniformity");
    assert_eq!(
        flags[0].description,
        "Paragraph lengths too uniform (std dev 0.0 < 1). Mean paragraph length: 2.0 sentences across 4 paragraphs."
    );
}

#[test]
fn varied_or_few_paragraphs_pass() {
    let text = "One.\n\nOne. Two. Three. Four. Five.\n\nOne.\n\nOne. Two. Three.";
    assert!(check_paragraph_uniformity(text, None).is_empty());
    let few = ["A b. C d.", "A b. C d.", "A b. C d."].join("\n\n");
    assert!(check_paragraph_uniformity(&few, None).is_empty());
}

#[test]
fn burstiness_description_is_exact() {
    let text = "One two three four five. One two three four five. One two three four five. One two three four five.";
    let flags = check_burstiness(text, None);
    assert_eq!(flags.len(), 1);
    assert_eq!(
        flags[0].description,
        "Sentence lengths too uniform (std dev 0.0 < 5). Mean sentence length: 5.0 words across 4 sentences."
    );
}

#[test]
fn burstiness_thresholds_come_from_parameters() {
    let text = "One two three four five. One two three four five. One two three four five.";
    assert!(check_burstiness(text, None).is_empty());
    let params = table(vec![
        ("min_sentences", TomlValue::Int(3)),
        ("std_dev_threshold", TomlValue::Float(FloatValue::Finite(2500))),
    ]);
    let flags = check_burstiness(text, Some(&params));
    assert_eq!(flags.len(), 1);
    assert!(flags[0].description.contains("(std dev 0.0 < 2.5)"));
}

#[test]
fn em_dash_allowance_from_parameters() {
    let text = "a\u{2014}b\u{2014}c";
    assert_eq!(check_em_dash_count(text, None).len(), 1);
    let params = table(vec![("max_allowed", TomlValue::Int(2))]);
    assert!(check_em_dash_count(text, Some(&params)).is_empty());
    let params = table(vec![("max_allowed", TomlValue::Int(0))]);
    let flags = check_em_dash_count(text, Some(&params));
    assert_eq!(flags[0].description, "Text contains 2 em-dashes (max 0 allowed)");
}

#[test]
fn configured_words_are_matched_literally() {
    let params = table(vec![("words", TomlValue::Table(table(vec![("simple", strings(&["a.b"]))])))]);
    let flags = check_lexical_blacklist("axb and a.b", Some(&params));
    assert_eq!(flags.len(), 1);
    assert_eq!(flags[0].description, "Banned phrase \"a.b\" found");
    assert_eq!(flags[0].location, "...\"axb and a.b\"...");
}

#[test]
fn configured_patterns_are_case_insensitive() {
    let params = table(vec![(
        "patterns",
        TomlValue::Table(table(vec![("entries", TomlValue::Array(vec![strings(&["gr[ae]y", "grey"])]))])),
    )]);
    let flags = check_lexical_blacklist("GRAY and grey", Some(&params));
    assert_eq!(flags.len(), 2);
    assert!(flags.iter().all(|f| f.description == "Banned phrase \"grey\" found"));
}

#[test]
fn empty_parameters_mean_no_lexical_patterns() {
    assert!(check_lexical_blacklist("we delve", Some(&TomlTable::new())).is_empty());
    assert_eq!(check_lexical_blacklist("we delve", None).len(), 1);
}

#[test]
fn banned_openers_are_matched_literally() {
    let params = table(vec![("banned", strings(&["A.B"]))]);
    let flags = check_transition_openers("AxB said so.\n\nA.B said so.", Some(&params));
    assert_eq!(flags.len(), 1);
    assert_eq!(flags[0].description, "Paragraph opens with banned transition \"A.B\"");
    assert_eq!(flags[0].location, "\"A.B\"");
}

#[test]
fn sentences_split_at_boundaries() {
    assert_eq!(sentences("One.  Two!\n\nThree? four."), vec!["One.", "Two!", "Three? four."]);
    assert_eq!(sentences("   "), Vec::<String>::new());
    assert_eq!(sentences("He said \"Hi.\" Then (later) left."), vec!["He said \"Hi.\" Then (later) left."]);
    assert_eq!(sentences("Go. \"Now\" he said."), vec!["Go.", "\"Now\" he said."]);
}

#[test]
fn paragraphs_split_at_blank_lines() {
    assert_eq!(paragraphs("a\n\nb\n  \n c \n\n\n"), vec!["a", "b", "c"]);
}

#[test]
fn word_counts() {
    assert_eq!(word_count("  one two\tthree\nfour  "), 4);
    assert_eq!(word_count(""), 0);
    assert_eq!(word_count("caf\u{e9}\u{a0}bar"), 2);
}

#[test]
fn snippets_widen_to_character_boundaries() {
    let text = "The quick brown fox jumps over the lazy dog";
    assert_eq!(snippet_around(text, 16, 19, 4), "own fox jum");
    assert_eq!(snippet_around(text, 0, 3, 20), "The quick brown fox jum");
    let text = "\u{e9}\u{e9}\u{e9}xyz\u{e9}\u{e9}";
    assert_eq!(snippet_around(text, 6, 9, 1), "\u{e9}xyz\u{e9}");
    assert_eq!(snippet_around("a\nb", 0, 3, 0), "a b");
}

#[test]
fn mean_is_printed_as_double_precision_prints_it() {
    // 247 words over 20 sentences: 12.35 is 12.3499999999999996447 as a double.
    let short = format!("Word {}end.", "word ".repeat(10));
    let long = format!("Word {}end.", "word ".repeat(11));
    let mut parts: Vec<String> = vec![short; 13];
    parts.extend(vec![long; 7]);
    let text = parts.join(" ");
    let flags = check_burstiness(&text, None);
    assert_eq!(flags.len(), 1);
    assert_eq!(
        flags[0].description,
        "Sentence lengths too uniform (std dev 0.5 < 5). Mean sentence length: 12.3 words across 20 sentences."
    );
}
