//! Voice directives: the writing constraints that the configured checks stand
//! for, worded for a language model's system prompt, and the chat prompts built
//! around them.
use vstd::prelude::*;
use crate::config::{Config, CheckConfig, config_get, opt_config};
use crate::value::{
    TomlTable, TomlValue, table_get, param, as_table, as_array, as_int, strings_of, array_strings,
    param_value, opt_table,
};
use crate::text::{join, strings_view, join_strings, concat3, push_decimal, decimal, str_eq, count_char};
use crate::checks::{em_dash_max, em_dash_flags, built_word_patterns, candidate_word_patterns, lemma_keep_compiling};
use crate::matching::regex_compiles;
use crate::matching::escaped;

verus! {

pub const SYSTEM_HEAD: &'static str = "[System-level writing constraints \u{2014} apply to ALL generated content]";

pub const LEXICAL_HEAD: &'static str = "LEXICAL RESTRICTIONS:";

pub const PROMOTION_RULE: &'static str =
    "Do not use promotional superlatives or inflate the significance of mundane things.";

pub const PUNCTUATION_HEAD: &'static str = "PUNCTUATION AND SYNTAX:";

pub const NO_EM_DASH_RULE: &'static str =
    "- Do not use em-dashes (\u{2014}). Use parentheses, semicolons, or commas instead.";

pub const EM_DASH_LIMIT_TAIL: &'static str =
    " em-dash(\u{2014}) per piece. Prefer parentheses or semicolons for asides.";

pub const TRAILING_RULE: &'static str =
    "- Never end a sentence with a comma followed by a present participle\n  (e.g. \", reflecting the...\" or \", underscoring the importance of...\").";

pub const THREES_RULE: &'static str =
    "- Do not group adjectives, examples, or clauses in threes. Use two or four.";

pub const COPULA_RULE: &'static str =
    "- Use \"is\" and \"are\" instead of \"serves as\", \"stands as\", \"functions as\".";

pub const WORDINESS_RULE: &'static str =
    "- Cut wordy constructions: \"in order to\" -> \"to\", \"due to the fact that\" -> \"because\",\n  \"at this point in time\" -> \"now\", \"the fact that\" -> (cut).";

pub const STRUCTURE_HEAD: &'static str = "RHYTHM AND STRUCTURE:";

pub const BURSTINESS_RULE: &'static str =
    "- Vary sentence length sharply. Mix fragments under 6 words with compound sentences\n  over 30 words. Never write three consecutive sentences of similar length.";

pub const PARAGRAPH_RULE: &'static str =
    "- Paragraphs must be asymmetrical: varying numbers of sentences, varying lengths.\n  Never write four consecutive paragraphs of equal length.";

pub const NEGATION_RULE: &'static str =
    "- No patterned negations (\"It's not X. It's Y.\" or \"Not merely X, but Y.\").";

pub const EMPHASIS_RULE: &'static str =
    "- No emphasis crutches: \"Full stop.\", \"Let that sink in.\", \"Make no mistake\".\n  Show importance through content, not by announcing it.";

pub const TONE_HEAD: &'static str = "TONE:";

pub const STANCE_RULE: &'static str =
    "- Take definitive, committed stances. No balanced-perspective hedging.";

pub const FACTS_RULE: &'static str = "- State facts directly without inflating their importance.";

pub const THROAT_RULE: &'static str =
    "- No throat-clearing openers: \"Here's the thing:\", \"Let me be clear\",\n  \"The truth is\", \"The reality is\". Start with the point.";

pub const CHATBOT_RULE: &'static str =
    "- No chatbot artifacts: \"Great question!\", \"I'd be happy to\",\n  \"Hope this helps\", \"Feel free to\", \"Certainly!\", \"Absolutely!\".";

pub const ATTRIBUTION_RULE: &'static str =
    "- No vague attribution: \"many experts agree\", \"studies show\", \"some critics argue\".\n  Cite specific sources or make the claim directly.";

pub const DETAIL_RULE: &'static str =
    "- Anchor writing in specific, unusual, concrete details rather than\n  generic abstractions.";

// ---------------------------------------------------------------------------
// Reading the configuration
// ---------------------------------------------------------------------------

/// Whether the check named `name` is configured and enabled.
pub open spec fn enabled_in(c: Config, name: Seq<char>) -> bool {
    match config_get(c, name) {
        Some(cc) => cc.enabled,
        None => false,
    }
}

/// The parameters of the check named `name`, when it is configured.
pub open spec fn params_in(c: Config, name: Seq<char>) -> Option<TomlTable> {
    match config_get(c, name) {
        Some(cc) => Some(cc.params),
        None => None,
    }
}

/// The string items of the array parameter `key` of the check `name` (none when
/// the parameter is missing or not an array).
pub open spec fn string_param(c: Config, name: Seq<char>, key: Seq<char>) -> Seq<Seq<char>> {
    match as_array(param(params_in(c, name), key)) {
        Some(a) => strings_of(a),
        None => Seq::empty(),
    }
}

fn is_enabled(c: &Config, name: &str) -> (b: bool)
    ensures
        b == enabled_in(*c, name@),
{
    match c.get(name) {
        Some(cc) => cc.enabled,
        None => false,
    }
}

fn check_params<'a>(c: &'a Config, name: &str) -> (r: Option<&'a TomlTable>)
    ensures
        opt_table(r) == params_in(*c, name@),
{
    match c.get(name) {
        Some(cc) => Some(&cc.params),
        None => None,
    }
}

fn string_param_exec(c: &Config, name: &str, key: &str) -> (r: Vec<String>)
    ensures
        strings_view(r@) == string_param(*c, name@, key@),
{
    let p = check_params(c, name);
    match param_value(p, key) {
        Some(v) => match v.as_array() {
            Some(a) => {
                let r = array_strings(a);
                assert(strings_view(r@) =~= r@.map_values(|s: String| s@));
                r
            },
            None => Vec::new(),
        },
        None => {
            let r: Vec<String> = Vec::new();
            assert(strings_view(r@) =~= Seq::<Seq<char>>::empty());
            r
        },
    }
}

// ---------------------------------------------------------------------------
// Lines
// ---------------------------------------------------------------------------

/// `ls` with `line` added when `cond` holds.
pub open spec fn push_if(ls: Seq<Seq<char>>, cond: bool, line: Seq<char>) -> Seq<Seq<char>> {
    if cond {
        ls.push(line)
    } else {
        ls
    }
}

/// `ls` with the line `lead`, the items separated by ", ", and `tail` added,
/// when there are items.
pub open spec fn list_line(
    ls: Seq<Seq<char>>,
    lead: Seq<char>,
    items: Seq<Seq<char>>,
    tail: Seq<char>,
) -> Seq<Seq<char>> {
    push_if(ls, items.len() > 0, lead + join(items, ", "@) + tail)
}

/// Each item in double quotes.
pub open spec fn quote_all(xs: Seq<Seq<char>>) -> Seq<Seq<char>> {
    xs.map_values(|x: Seq<char>| "\""@ + x + "\""@)
}

fn push_line(lines: &mut Vec<String>, line: String)
    ensures
        strings_view(final(lines)@) == strings_view(old(lines)@).push(line@),
{
    lines.push(line);
    assert(strings_view(lines@) =~= strings_view(old(lines)@).push(line@));
}

fn push_line_if(lines: &mut Vec<String>, cond: bool, line: &str)
    ensures
        strings_view(final(lines)@) == push_if(strings_view(old(lines)@), cond, line@),
{
    if cond {
        push_line(lines, line.to_owned());
    }
}

fn push_list_line(lines: &mut Vec<String>, lead: &str, items: &Vec<String>, tail: &str)
    ensures
        strings_view(final(lines)@) == list_line(
            strings_view(old(lines)@),
            lead@,
            strings_view(items@),
            tail@,
        ),
{
    if items.len() > 0 {
        let joined = join_strings(items, ", ");
        push_line(lines, concat3(lead, joined.as_str(), tail));
    }
}

fn quote_each(xs: &Vec<String>) -> (r: Vec<String>)
    ensures
        strings_view(r@) == quote_all(strings_view(xs@)),
{
    let mut r: Vec<String> = Vec::new();
    let mut i: usize = 0;
    while i < xs.len()
        invariant
            i <= xs.len(),
            strings_view(r@) == quote_all(strings_view(xs@)).take(i as int),
        decreases xs.len() - i,
    {
        let q = concat3("\"", xs[i].as_str(), "\"");
        push_line(&mut r, q);
        i += 1;
        assert(strings_view(r@) =~= quote_all(strings_view(xs@)).take(i as int));
    }
    assert(quote_all(strings_view(xs@)).take(xs.len() as int) =~= quote_all(strings_view(xs@)));
    r
}

fn lines_text(lines: &Vec<String>) -> (r: String)
    ensures
        r@ == join(strings_view(lines@), "\n"@),
{
    join_strings(lines, "\n")
}

// ---------------------------------------------------------------------------
// Punctuation and syntax
// ---------------------------------------------------------------------------

/// The em-dash limit as configured for the em-dash check: `max_allowed`,
/// else 1 (the default the detector applies too).
pub open spec fn em_dash_allowance(c: Config) -> i64 {
    match as_int(param(params_in(c, "em_dash_count"@), "max_allowed"@)) {
        Some(i) => i,
        None => 1,
    }
}

/// An integer in decimal, with a minus sign when negative.
pub open spec fn signed_decimal(m: i64) -> Seq<char> {
    if m < 0 {
        "-"@ + decimal((-m) as nat)
    } else {
        decimal(m as nat)
    }
}

/// The em-dash rule for a limit.
pub open spec fn em_dash_rule(m: i64) -> Seq<char> {
    if m == 0 {
        NO_EM_DASH_RULE@
    } else {
        "- Maximum "@ + signed_decimal(m) + EM_DASH_LIMIT_TAIL@
    }
}

/// The lines of the punctuation section: one rule for each enabled check that
/// concerns punctuation or syntax, in a fixed order.
pub open spec fn punctuation_lines(c: Config) -> Seq<Seq<char>> {
    let l = seq![PUNCTUATION_HEAD@];
    let l = push_if(l, enabled_in(c, "em_dash_count"@), em_dash_rule(em_dash_allowance(c)));
    let l = push_if(l, enabled_in(c, "trailing_participle"@), TRAILING_RULE@);
    let l = push_if(l, enabled_in(c, "rule_of_three"@), THREES_RULE@);
    let l = if enabled_in(c, "transition_openers"@) {
        list_line(
            l,
            "- Do not start paragraphs with: "@,
            string_param(c, "transition_openers"@, "banned"@),
            "."@,
        )
    } else {
        l
    };
    let l = push_if(l, enabled_in(c, "copulative_inflation"@), COPULA_RULE@);
    push_if(l, enabled_in(c, "wordiness"@), WORDINESS_RULE@)
}

fn em_dash_allowance_exec(c: &Config) -> (r: i64)
    ensures
        r == em_dash_allowance(*c),
{
    match param_value(check_params(c, "em_dash_count"), "max_allowed") {
        Some(v) => match v.as_integer() {
            Some(i) => i,
            None => 1,
        },
        None => 1,
    }
}

fn signed_text(m: i64) -> (s: String)
    ensures
        s@ == signed_decimal(m),
{
    let mut s = String::new();
    proof {
        reveal_strlit("");
        reveal_strlit("-");
    }
    if m < 0 {
        s.append("-");
        let a: u128 = (0i128 - m as i128) as u128;
        push_decimal(&mut s, a);
    } else {
        push_decimal(&mut s, m as u128);
    }
    assert(s@ =~= signed_decimal(m));
    s
}

/// The punctuation section of the directive.
pub fn build_punctuation_section(config: &Config) -> (r: String)
    ensures
        r@ == join(punctuation_lines(*config), "\n"@),
{
    let mut lines: Vec<String> = Vec::new();
    push_line(&mut lines, PUNCTUATION_HEAD.to_owned());
    assert(strings_view(lines@) =~= seq![PUNCTUATION_HEAD@]);
    if is_enabled(config, "em_dash_count") {
        let m = em_dash_allowance_exec(config);
        if m == 0 {
            push_line(&mut lines, NO_EM_DASH_RULE.to_owned());
        } else {
            let n = signed_text(m);
            push_line(&mut lines, concat3("- Maximum ", n.as_str(), EM_DASH_LIMIT_TAIL));
        }
    }
    push_line_if(&mut lines, is_enabled(config, "trailing_participle"), TRAILING_RULE);
    push_line_if(&mut lines, is_enabled(config, "rule_of_three"), THREES_RULE);
    if is_enabled(config, "transition_openers") {
        let banned = string_param_exec(config, "transition_openers", "banned");
        push_list_line(&mut lines, "- Do not start paragraphs with: ", &banned, ".");
    }
    push_line_if(&mut lines, is_enabled(config, "copulative_inflation"), COPULA_RULE);
    push_line_if(&mut lines, is_enabled(config, "wordiness"), WORDINESS_RULE);
    lines_text(&lines)
}

// ---------------------------------------------------------------------------
// Lexical restrictions
// ---------------------------------------------------------------------------

/// The labels of `[pattern, label]` entries: the second item of each array
/// entry that has at least two items, when it is a string.
pub open spec fn entry_labels(a: Seq<TomlValue>) -> Seq<Seq<char>>
    decreases a.len(),
{
    if a.len() == 0 {
        Seq::empty()
    } else {
        let rest = entry_labels(a.drop_last());
        match a.last() {
            TomlValue::Array(arr) => if arr@.len() >= 2 {
                match arr@[1] {
                    TomlValue::Str(l) => rest.push(l@),
                    _ => rest,
                }
            } else {
                rest
            },
            _ => rest,
        }
    }
}

/// The banned words of the lexical parameters (`words.simple`).
pub open spec fn lexical_words(p: TomlTable) -> Seq<Seq<char>> {
    match as_array(param(as_table(table_get(p, "words"@)), "simple"@)) {
        Some(a) => strings_of(a),
        None => Seq::empty(),
    }
}

/// The quoted labels of the lexical patterns (`patterns.entries`).
pub open spec fn lexical_phrases(p: TomlTable) -> Seq<Seq<char>> {
    match as_array(param(as_table(table_get(p, "patterns"@)), "entries"@)) {
        Some(a) => quote_all(entry_labels(a)),
        None => Seq::empty(),
    }
}

/// The lines of the lexical section for the lexical check's parameters.
pub open spec fn lexical_lines(p: TomlTable) -> Seq<Seq<char>> {
    let l = seq![LEXICAL_HEAD@];
    let l = list_line(l, "Never use these words: "@, lexical_words(p), "."@);
    let l = list_line(l, "Never use these phrases: "@, lexical_phrases(p), "."@);
    l.push(PROMOTION_RULE@)
}

fn entry_labels_exec(a: &Vec<TomlValue>) -> (r: Vec<String>)
    ensures
        strings_view(r@) == entry_labels(a@),
{
    let mut r: Vec<String> = Vec::new();
    let mut i: usize = 0;
    while i < a.len()
        invariant
            i <= a.len(),
            strings_view(r@) == entry_labels(a@.take(i as int)),
        decreases a.len() - i,
    {
        assert(a@.take(i + 1).drop_last() =~= a@.take(i as int));
        assert(a@.take(i + 1).last() == a@[i as int]);
        if let Some(arr) = a[i].as_array() {
            if arr.len() >= 2 {
                if let Some(l) = arr[1].as_str() {
                    push_line(&mut r, l.to_owned());
                }
            }
        }
        i += 1;
    }
    assert(a@.take(a.len() as int) =~= a@);
    r
}

fn lookup_nested<'a>(p: &'a TomlTable, outer: &str, inner: &str) -> (r: Option<&'a Vec<TomlValue>>)
    ensures
        match as_array(param(as_table(table_get(*p, outer@)), inner@)) {
            Some(a) => r matches Some(x) && x@ == a,
            None => r is None,
        },
{
    let t = match p.get(outer) {
        Some(v) => v.as_table(),
        None => None,
    };
    match param_value(t, inner) {
        Some(v) => v.as_array(),
        None => None,
    }
}

/// The lexical section of the directive, from the lexical check's parameters.
pub fn build_lexical_section(params: &TomlTable) -> (r: String)
    ensures
        r@ == join(lexical_lines(*params), "\n"@),
{
    let mut lines: Vec<String> = Vec::new();
    push_line(&mut lines, LEXICAL_HEAD.to_owned());
    assert(strings_view(lines@) =~= seq![LEXICAL_HEAD@]);
    let words: Vec<String> = match lookup_nested(params, "words", "simple") {
        Some(a) => {
            let w = array_strings(a);
            assert(strings_view(w@) =~= w@.map_values(|s: String| s@));
            w
        },
        None => {
            let w: Vec<String> = Vec::new();
            assert(strings_view(w@) =~= Seq::<Seq<char>>::empty());
            w
        },
    };
    push_list_line(&mut lines, "Never use these words: ", &words, ".");
    let phrases: Vec<String> = match lookup_nested(params, "patterns", "entries") {
        Some(a) => quote_each(&entry_labels_exec(a)),
        None => {
            let w: Vec<String> = Vec::new();
            assert(strings_view(w@) =~= Seq::<Seq<char>>::empty());
            w
        },
    };
    push_list_line(&mut lines, "Never use these phrases: ", &phrases, ".");
    push_line(&mut lines, PROMOTION_RULE.to_owned());
    lines_text(&lines)
}

// ---------------------------------------------------------------------------
// Rhythm and structure
// ---------------------------------------------------------------------------

/// The lines of the structure section.
pub open spec fn structure_lines(c: Config) -> Seq<Seq<char>> {
    let l = seq![STRUCTURE_HEAD@];
    let l = push_if(l, enabled_in(c, "burstiness"@), BURSTINESS_RULE@);
    let l = push_if(l, enabled_in(c, "paragraph_uniformity"@), PARAGRAPH_RULE@);
    let l = push_if(l, enabled_in(c, "patterned_negation"@), NEGATION_RULE@);
    push_if(l, enabled_in(c, "emphasis_crutches"@), EMPHASIS_RULE@)
}

/// The structure section of the directive.
pub fn build_structure_section(config: &Config) -> (r: String)
    ensures
        r@ == join(structure_lines(*config), "\n"@),
{
    let mut lines: Vec<String> = Vec::new();
    push_line(&mut lines, STRUCTURE_HEAD.to_owned());
    assert(strings_view(lines@) =~= seq![STRUCTURE_HEAD@]);
    push_line_if(&mut lines, is_enabled(config, "burstiness"), BURSTINESS_RULE);
    push_line_if(&mut lines, is_enabled(config, "paragraph_uniformity"), PARAGRAPH_RULE);
    push_line_if(&mut lines, is_enabled(config, "patterned_negation"), NEGATION_RULE);
    push_line_if(&mut lines, is_enabled(config, "emphasis_crutches"), EMPHASIS_RULE);
    lines_text(&lines)
}

proof fn lemma_push_if_contains(ls: Seq<Seq<char>>, cond: bool, line: Seq<char>, x: Seq<char>)
    ensures
        push_if(ls, cond, line).contains(x) == (ls.contains(x) || (cond && line == x)),
{
    if cond {
        let l2 = ls.push(line);
        if l2.contains(x) {
            let i = choose|i: int| 0 <= i < l2.len() && l2[i] == x;
            if i < ls.len() {
                assert(ls[i] == x);
            }
        }
        if ls.contains(x) {
            let i = choose|i: int| 0 <= i < ls.len() && ls[i] == x;
            assert(l2[i] == x);
        }
        if line == x {
            assert(l2[ls.len() as int] == x);
        }
    }
}

/// The structure section states the paragraph rule exactly when the
/// paragraph-uniformity check is configured and enabled (whatever the other
/// checks are set to).
pub proof fn law_paragraph_rule_follows_check(c: Config)
    ensures
        structure_lines(c).contains(PARAGRAPH_RULE@) == (config_get(c, "paragraph_uniformity"@) matches Some(
            cc,
        ) && cc.enabled),
{
    reveal_strlit("RHYTHM AND STRUCTURE:");
    reveal_strlit("- Vary sentence length sharply. Mix fragments under 6 words with compound sentences\n  over 30 words. Never write three consecutive sentences of similar length.");
    reveal_strlit("- Paragraphs must be asymmetrical: varying numbers of sentences, varying lengths.\n  Never write four consecutive paragraphs of equal length.");
    reveal_strlit("- No patterned negations (\"It's not X. It's Y.\" or \"Not merely X, but Y.\").");
    reveal_strlit("- No emphasis crutches: \"Full stop.\", \"Let that sink in.\", \"Make no mistake\".\n  Show importance through content, not by announcing it.");
    let para = PARAGRAPH_RULE@;
    assert(STRUCTURE_HEAD@[2] != para[2]);
    assert(BURSTINESS_RULE@[2] != para[2]);
    assert(NEGATION_RULE@[2] != para[2]);
    assert(EMPHASIS_RULE@[2] != para[2]);
    let l0 = seq![STRUCTURE_HEAD@];
    assert(!l0.contains(para)) by {
        if l0.contains(para) {
            let i = choose|i: int| 0 <= i < l0.len() && l0[i] == para;
            assert(l0[i] == STRUCTURE_HEAD@);
        }
    }
    let l1 = push_if(l0, enabled_in(c, "burstiness"@), BURSTINESS_RULE@);
    lemma_push_if_contains(l0, enabled_in(c, "burstiness"@), BURSTINESS_RULE@, para);
    let l2 = push_if(l1, enabled_in(c, "paragraph_uniformity"@), para);
    lemma_push_if_contains(l1, enabled_in(c, "paragraph_uniformity"@), para, para);
    let l3 = push_if(l2, enabled_in(c, "patterned_negation"@), NEGATION_RULE@);
    lemma_push_if_contains(l2, enabled_in(c, "patterned_negation"@), NEGATION_RULE@, para);
    lemma_push_if_contains(l3, enabled_in(c, "emphasis_crutches"@), EMPHASIS_RULE@, para);
}

// ---------------------------------------------------------------------------
// Tone
// ---------------------------------------------------------------------------

/// The first four items (all of them when there are fewer).
pub open spec fn first_four<A>(a: Seq<A>) -> Seq<A> {
    if a.len() <= 4 {
        a
    } else {
        a.take(4)
    }
}

/// The quoted string items among the first four conclusion openers.
pub open spec fn conclusion_examples(c: Config) -> Seq<Seq<char>> {
    match as_array(param(params_in(c, "formulaic_conclusion"@), "openers"@)) {
        Some(a) => quote_all(strings_of(first_four(a))),
        None => Seq::empty(),
    }
}

/// The lines of the tone section.
pub open spec fn tone_lines(c: Config) -> Seq<Seq<char>> {
    let l = seq![TONE_HEAD@, STANCE_RULE@, FACTS_RULE@];
    let l = if enabled_in(c, "formulaic_conclusion"@) {
        list_line(
            l,
            "- No formulaic conclusions. Never use "@,
            conclusion_examples(c),
            ", etc."@,
        )
    } else {
        l
    };
    let l = push_if(l, enabled_in(c, "throat_clearing"@), THROAT_RULE@);
    let l = push_if(l, enabled_in(c, "chatbot_artifacts"@), CHATBOT_RULE@);
    let l = push_if(l, enabled_in(c, "vague_attribution"@), ATTRIBUTION_RULE@);
    l.push(DETAIL_RULE@)
}

fn conclusion_examples_exec(c: &Config) -> (r: Vec<String>)
    ensures
        strings_view(r@) == conclusion_examples(*c),
{
    match param_value(check_params(c, "formulaic_conclusion"), "openers") {
        Some(v) => match v.as_array() {
            Some(a) => {
                let mut firsts: Vec<String> = Vec::new();
                let n: usize = if a.len() <= 4 {
                    a.len()
                } else {
                    4
                };
                let ghost f = first_four(a@);
                assert(f =~= a@.take(n as int));
                let mut i: usize = 0;
                while i < n
                    invariant
                        i <= n,
                        n <= a.len(),
                        f == a@.take(n as int),
                        strings_view(firsts@) == strings_of(f.take(i as int)),
                    decreases n - i,
                {
                    assert(f.take(i + 1).drop_last() =~= f.take(i as int));
                    assert(f.take(i + 1).last() == a@[i as int]);
                    if let Some(s) = a[i].as_str() {
                        push_line(&mut firsts, s.to_owned());
                    }
                    i += 1;
                }
                assert(f.take(n as int) =~= f);
                quote_each(&firsts)
            },
            None => {
                let w: Vec<String> = Vec::new();
                assert(strings_view(w@) =~= Seq::<Seq<char>>::empty());
                w
            },
        },
        None => {
            let w: Vec<String> = Vec::new();
            assert(strings_view(w@) =~= Seq::<Seq<char>>::empty());
            w
        },
    }
}

/// The tone section of the directive.
pub fn build_tone_section(config: &Config) -> (r: String)
    ensures
        r@ == join(tone_lines(*config), "\n"@),
{
    let mut lines: Vec<String> = Vec::new();
    push_line(&mut lines, TONE_HEAD.to_owned());
    push_line(&mut lines, STANCE_RULE.to_owned());
    push_line(&mut lines, FACTS_RULE.to_owned());
    assert(strings_view(lines@) =~= seq![TONE_HEAD@, STANCE_RULE@, FACTS_RULE@]);
    if is_enabled(config, "formulaic_conclusion") {
        let examples = conclusion_examples_exec(config);
        push_list_line(&mut lines, "- No formulaic conclusions. Never use ", &examples, ", etc.");
    }
    push_line_if(&mut lines, is_enabled(config, "throat_clearing"), THROAT_RULE);
    push_line_if(&mut lines, is_enabled(config, "chatbot_artifacts"), CHATBOT_RULE);
    push_line_if(&mut lines, is_enabled(config, "vague_attribution"), ATTRIBUTION_RULE);
    push_line(&mut lines, DETAIL_RULE.to_owned());
    lines_text(&lines)
}

// ---------------------------------------------------------------------------
// The directive and the chat prompts
// ---------------------------------------------------------------------------

/// The sections of the directive: the heading, the lexical section when the
/// lexical check is enabled, then punctuation, structure and tone.
pub open spec fn voice_sections(c: Config) -> Seq<Seq<char>> {
    let s = seq![SYSTEM_HEAD@];
    let s = match config_get(c, "lexical_blacklist"@) {
        Some(cc) => if cc.enabled {
            s.push(join(lexical_lines(cc.params), "\n"@))
        } else {
            s
        },
        None => s,
    };
    s.push(join(punctuation_lines(c), "\n"@)).push(join(structure_lines(c), "\n"@)).push(
        join(tone_lines(c), "\n"@),
    )
}

/// The directive: its sections separated by blank lines.
pub open spec fn voice_directive(c: Config) -> Seq<char> {
    join(voice_sections(c), "\n\n"@)
}

/// The voice directive for a configuration: the constraints its enabled checks
/// stand for, for a language model's system prompt.
pub fn generate_voice_directive(config: &Config) -> (r: String)
    ensures
        r@ == voice_directive(*config),
{
    let mut sections: Vec<String> = Vec::new();
    push_line(&mut sections, SYSTEM_HEAD.to_owned());
    assert(strings_view(sections@) =~= seq![SYSTEM_HEAD@]);
    match config.get("lexical_blacklist") {
        Some(lexical) => {
            if lexical.enabled {
                push_line(&mut sections, build_lexical_section(&lexical.params));
            }
        },
        None => {},
    }
    push_line(&mut sections, build_punctuation_section(config));
    push_line(&mut sections, build_structure_section(config));
    push_line(&mut sections, build_tone_section(config));
    join_strings(&sections, "\n\n")
}

pub const CLEANUP_INTRO: &'static str = "You are a prose editor specializing in removing AI-generated writing patterns. I'm going to give you text that sounds like it was written by an AI. Rewrite it so it reads like a human wrote it.\n\nRules to follow:\n\n";

pub const CLEANUP_OUTRO: &'static str = "\n\nAdditional guidance:\n- Don't just swap flagged words for synonyms. Restructure sentences so they don't need those words.\n- Replace vague abstractions with specific, concrete details.\n- Take committed stances instead of hedging.\n- Vary sentence length aggressively. Mix short fragments with longer compound sentences.\n- End when you're done. No summary paragraph.\n\nHere is the text to rewrite:\n\n[PASTE YOUR TEXT HERE]";

pub const WRITER_INTRO: &'static str = "You are a writer who produces clean, human-sounding prose. Follow these constraints for everything you write in this conversation:\n\n";

pub const WRITER_OUTRO: &'static str = "\n\nAdditional guidance:\n- Anchor your writing in specific, concrete, unusual details rather than generic abstractions.\n- Take definitive stances. Don't hedge or both-sides things.\n- Vary sentence length aggressively. Mix short fragments with longer compound sentences.\n- End when you're done. No summary paragraph, no \"in conclusion\".\n- Write like a person who has opinions and knows things, not like a helpful assistant.";

/// The chat prompt of a mode: "cleanup" asks for a rewrite of pasted text; any
/// other mode asks for clean writing. Both carry the directive.
pub open spec fn chat_prompt(c: Config, mode: Seq<char>) -> Seq<char> {
    if mode == "cleanup"@ {
        CLEANUP_INTRO@ + voice_directive(c) + CLEANUP_OUTRO@
    } else {
        WRITER_INTRO@ + voice_directive(c) + WRITER_OUTRO@
    }
}

/// A prompt to paste into a chat window: the directive with instructions
/// around it for the given mode.
pub fn generate_chat_prompt(config: &Config, mode: &str) -> (r: String)
    ensures
        r@ == chat_prompt(*config, mode@),
{
    let directive = generate_voice_directive(config);
    if str_eq(mode, "cleanup") {
        concat3(CLEANUP_INTRO, directive.as_str(), CLEANUP_OUTRO)
    } else {
        concat3(WRITER_INTRO, directive.as_str(), WRITER_OUTRO)
    }
}

/// `needle` occurs in `s` as a contiguous piece.
pub open spec fn contains_text(s: Seq<char>, needle: Seq<char>) -> bool {
    exists|i: int| 0 <= i && i + needle.len() <= s.len() && #[trigger] s.subrange(i, i + needle.len()) == needle
}

/// A chat prompt contains the voice directive whole, right after the mode's
/// introduction. The "cleanup" prompt opens as a prose editor and ends with
/// the paste placeholder `[PASTE YOUR TEXT HERE]`. Any other mode asks for
/// clean, human-sounding prose, and it holds the words `PASTE YOUR TEXT HERE`
/// only where the directive itself (built from the configured phrases) does.
pub proof fn law_chat_prompt_frames_directive(c: Config, mode: Seq<char>)
    ensures
        contains_text(chat_prompt(c, mode), voice_directive(c)),
        mode == "cleanup"@ ==> {
            let p = chat_prompt(c, mode);
            &&& p.subrange(
                CLEANUP_INTRO@.len() as int,
                (CLEANUP_INTRO@.len() + voice_directive(c).len()) as int,
            ) == voice_directive(c)
            &&& "You are a prose editor"@.is_prefix_of(p)
            &&& "[PASTE YOUR TEXT HERE]"@.is_suffix_of(p)
            &&& contains_text(p, "[PASTE YOUR TEXT HERE]"@)
        },
        mode != "cleanup"@ ==> {
            let p = chat_prompt(c, mode);
            &&& p.subrange(
                WRITER_INTRO@.len() as int,
                (WRITER_INTRO@.len() + voice_directive(c).len()) as int,
            ) == voice_directive(c)
            &&& "You are a writer who produces clean, human-sounding prose"@.is_prefix_of(p)
            &&& contains_text(p, "clean, human-sounding prose"@)
            &&& !contains_text(voice_directive(c), "PASTE YOUR TEXT HERE"@) ==> !contains_text(
                p,
                "PASTE YOUR TEXT HERE"@,
            )
        },
{
    let d = voice_directive(c);
    if mode == "cleanup"@ {
        reveal_strlit("You are a prose editor");
        reveal_strlit("[PASTE YOUR TEXT HERE]");
        reveal_strlit("You are a prose editor specializing in removing AI-generated writing patterns. I'm going to give you text that sounds like it was written by an AI. Rewrite it so it reads like a human wrote it.\n\nRules to follow:\n\n");
        reveal_strlit("\n\nAdditional guidance:\n- Don't just swap flagged words for synonyms. Restructure sentences so they don't need those words.\n- Replace vague abstractions with specific, concrete details.\n- Take committed stances instead of hedging.\n- Vary sentence length aggressively. Mix short fragments with longer compound sentences.\n- End when you're done. No summary paragraph.\n\nHere is the text to rewrite:\n\n[PASTE YOUR TEXT HERE]");
        let p = CLEANUP_INTRO@ + d + CLEANUP_OUTRO@;
        let k = CLEANUP_INTRO@.len() as int;
        assert(p.subrange(k, k + d.len()) =~= d);
        assert("You are a prose editor"@ =~= p.subrange(0, 22));
        assert("[PASTE YOUR TEXT HERE]"@ =~= p.subrange(p.len() - 22, p.len() as int));
        assert(p.subrange(p.len() - 22, p.len() - 22 + 22) == "[PASTE YOUR TEXT HERE]"@);
    } else {
        let n = "PASTE YOUR TEXT HERE"@;
        reveal_strlit("PASTE YOUR TEXT HERE");
        reveal_strlit("You are a writer who produces clean, human-sounding prose");
        reveal_strlit("clean, human-sounding prose");
        reveal_strlit("You are a writer who produces clean, human-sounding prose. Follow these constraints for everything you write in this conversation:\n\n");
        reveal_strlit("\n\nAdditional guidance:\n- Anchor your writing in specific, concrete, unusual details rather than generic abstractions.\n- Take definitive stances. Don't hedge or both-sides things.\n- Vary sentence length aggressively. Mix short fragments with longer compound sentences.\n- End when you're done. No summary paragraph, no \"in conclusion\".\n- Write like a person who has opinions and knows things, not like a helpful assistant.");
        let p = WRITER_INTRO@ + d + WRITER_OUTRO@;
        let k = WRITER_INTRO@.len() as int;
        assert(p.subrange(k, k + d.len()) =~= d);
        assert("You are a writer who produces clean, human-sounding prose"@ =~= p.subrange(0, 57));
        assert("clean, human-sounding prose"@ =~= p.subrange(30, 57));
        assert(p.subrange(30, 30 + 27int) == "clean, human-sounding prose"@);
        if !contains_text(d, n) && contains_text(p, n) {
            let i = choose|i: int| 0 <= i && i + n.len() <= p.len() && #[trigger] p.subrange(i, i + n.len()) == n;
            assert(p[i] == p.subrange(i, i + n.len())[0]);
            assert(p[i] == 'P');
            assert(forall|j: int| 0 <= j < WRITER_INTRO@.len() ==> WRITER_INTRO@[j] != 'P');
            assert(forall|j: int| 0 <= j < WRITER_OUTRO@.len() ==> WRITER_OUTRO@[j] != 'P');
            if i < k {
                assert(p[i] == WRITER_INTRO@[i]);
            } else if i >= k + d.len() {
                assert(p[i] == WRITER_OUTRO@[i - k - d.len()]);
            } else if i + n.len() > k + d.len() {
                let e = k + d.len();
                assert(p[e] == WRITER_OUTRO@[0]);
                assert(p.subrange(i, i + n.len())[e - i] == p[e]);
                assert(forall|j: int| 0 <= j < n.len() ==> n[j] != '\n');
            } else {
                assert(d.subrange(i - k, i - k + n.len()) =~= p.subrange(i, i + n.len()));
                assert(contains_text(d, n));
            }
        }
    }
}

// ---------------------------------------------------------------------------
// The em-dash rule follows the em-dash check
// ---------------------------------------------------------------------------

/// The shape of an em-dash rule: "- Do not use…" or "- Maximum…".
pub open spec fn em_rule_shaped(x: Seq<char>) -> bool {
    &&& x.len() >= 10
    &&& x[0] == '-'
    &&& (x[2] == 'D' && x[9] == 'u') || x[2] == 'M'
}

proof fn lemma_em_dash_rule_shaped(m: i64)
    ensures
        em_rule_shaped(em_dash_rule(m)),
{
    reveal_strlit("- Do not use em-dashes (\u{2014}). Use parentheses, semicolons, or commas instead.");
    reveal_strlit("- Maximum ");
}

/// No line of `ls` has the shape of an em-dash rule.
pub open spec fn no_em_rule(ls: Seq<Seq<char>>) -> bool {
    forall|i: int| 0 <= i < ls.len() ==> !em_rule_shaped(#[trigger] ls[i])
}

proof fn lemma_push_if_no_em_rule(ls: Seq<Seq<char>>, cond: bool, line: Seq<char>)
    requires
        no_em_rule(ls),
        !em_rule_shaped(line),
    ensures
        no_em_rule(push_if(ls, cond, line)),
{
    if cond {
        assert forall|i: int| 0 <= i < ls.len() + 1 implies !em_rule_shaped(
            #[trigger] ls.push(line)[i],
        ) by {
            if i < ls.len() {
                assert(ls.push(line)[i] == ls[i]);
            }
        }
    }
}

/// Prevention and detection share the em-dash limit: the punctuation section
/// carries an em-dash rule exactly when the em-dash check is enabled, that rule
/// states the configured limit (`max_allowed`, else 1), which the check reads
/// as a `usize` (so the two agree on every limit from 0 to `usize::MAX`), and a
/// text keeps to the check's limit exactly when the check raises no flag on it.
pub proof fn law_em_dash_rule_follows_check(c: Config)
    ensures
        enabled_in(c, "em_dash_count"@) ==> punctuation_lines(c)[1] == em_dash_rule(
            em_dash_allowance(c),
        ),
        em_dash_max(params_in(c, "em_dash_count"@)) == em_dash_allowance(c) as usize,
        0 <= em_dash_allowance(c) <= usize::MAX ==> em_dash_allowance(c) == em_dash_max(
            params_in(c, "em_dash_count"@),
        ),
        forall|t: Seq<char>|
            count_char(t, '\u{2014}') <= em_dash_max(params_in(c, "em_dash_count"@))
                <==> #[trigger] em_dash_flags(t, params_in(c, "em_dash_count"@)).len() == 0,
        !enabled_in(c, "em_dash_count"@) ==> forall|m: i64|
            !punctuation_lines(c).contains(#[trigger] em_dash_rule(m)),
{
    if !enabled_in(c, "em_dash_count"@) {
        reveal_strlit("PUNCTUATION AND SYNTAX:");
        reveal_strlit("- Never end a sentence with a comma followed by a present participle\n  (e.g. \", reflecting the...\" or \", underscoring the importance of...\").");
        reveal_strlit("- Do not group adjectives, examples, or clauses in threes. Use two or four.");
        reveal_strlit("- Do not start paragraphs with: ");
        reveal_strlit("- Use \"is\" and \"are\" instead of \"serves as\", \"stands as\", \"functions as\".");
        reveal_strlit("- Cut wordy constructions: \"in order to\" -> \"to\", \"due to the fact that\" -> \"because\",\n  \"at this point in time\" -> \"now\", \"the fact that\" -> (cut).");
        let l0 = seq![PUNCTUATION_HEAD@];
        assert(no_em_rule(l0));
        let l1 = push_if(l0, false, em_dash_rule(em_dash_allowance(c)));
        let l2 = push_if(l1, enabled_in(c, "trailing_participle"@), TRAILING_RULE@);
        lemma_push_if_no_em_rule(l1, enabled_in(c, "trailing_participle"@), TRAILING_RULE@);
        let l3 = push_if(l2, enabled_in(c, "rule_of_three"@), THREES_RULE@);
        lemma_push_if_no_em_rule(l2, enabled_in(c, "rule_of_three"@), THREES_RULE@);
        let items = string_param(c, "transition_openers"@, "banned"@);
        let tline = "- Do not start paragraphs with: "@ + join(items, ", "@) + "."@;
        assert(tline[2] == 'D' && tline[9] == 's');
        let l4 = if enabled_in(c, "transition_openers"@) {
            list_line(l3, "- Do not start paragraphs with: "@, items, "."@)
        } else {
            l3
        };
        lemma_push_if_no_em_rule(l3, items.len() > 0, tline);
        let l5 = push_if(l4, enabled_in(c, "copulative_inflation"@), COPULA_RULE@);
        lemma_push_if_no_em_rule(l4, enabled_in(c, "copulative_inflation"@), COPULA_RULE@);
        lemma_push_if_no_em_rule(l5, enabled_in(c, "wordiness"@), WORDINESS_RULE@);
        assert(punctuation_lines(c) == push_if(l5, enabled_in(c, "wordiness"@), WORDINESS_RULE@));
        assert forall|m: i64| !punctuation_lines(c).contains(#[trigger] em_dash_rule(m)) by {
            lemma_em_dash_rule_shaped(m);
        }
    }
}

/// Prevention and detection share the configuration: each word that the
/// directive forbids is a word that the lexical check searches for (as a whole
/// word, escaped, ignoring case), whenever that pattern compiles.
pub proof fn law_directive_words_are_checked(p: TomlTable, i: int)
    requires
        0 <= i < lexical_words(p).len(),
        regex_compiles("(?i)\\b"@ + escaped(lexical_words(p)[i]) + "\\b"@),
    ensures
        built_word_patterns(p).contains(
            ("(?i)\\b"@ + escaped(lexical_words(p)[i]) + "\\b"@, lexical_words(p)[i]),
        ),
{
    let c = candidate_word_patterns(p);
    assert(c[i] == ("(?i)\\b"@ + escaped(lexical_words(p)[i]) + "\\b"@, lexical_words(p)[i]));
    lemma_keep_compiling(c, i);
}

} // verus!
