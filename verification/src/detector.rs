//! Slop detection orchestrator: runs the checks, scores the text.
use vstd::prelude::*;
use crate::checks::{
    lexical_style,
    lexical_patterns,
    patterns_flags,
    em_dash_flags,
    trailing_style,
    trailing_participle_pattern,
    rule_of_three_style,
    rule_of_three_pattern,
    transition_flags,
    burstiness_flags,
    copulative_flags,
    conclusion_flags,
    negation_flags,
    phrase_flags,
    throat_clearing_style,
    default_throat_clearing_patterns,
    chatbot_artifacts_style,
    default_chatbot_artifacts_patterns,
    emphasis_crutches_style,
    default_emphasis_crutches_patterns,
    vague_attribution_style,
    default_vague_attribution_patterns,
    wordiness_style,
    default_wordiness_patterns,
    paragraph_uniformity_flags,
    transition_pattern_ok,
    transition_pattern_of,
    conclusion_pattern_of,
    conclusion_pattern_ok,
    check_lexical_blacklist,
    check_em_dash_count,
    check_trailing_participle,
    check_rule_of_three,
    check_transition_openers,
    check_burstiness,
    check_copulative_inflation,
    check_formulaic_conclusion,
    check_patterned_negation,
    check_throat_clearing,
    check_chatbot_artifacts,
    check_paragraph_uniformity,
    check_emphasis_crutches,
    check_vague_attribution,
    check_wordiness,
};
use crate::config::{Config, CheckConfig, config_get, opt_config};
use crate::models::{SlopFlag, SlopResult, CheckScore, FlagView, flags_view, scores_view};
use crate::text::{all_ws, trim_is_empty};
use crate::matching::pattern_compiles;
use crate::double::{f64_percent_floor, percent_floor, lemma_percent_below_100};
use crate::value::{TomlTable, opt_table};

verus! {

/// The fifteen checks.
#[derive(Debug, Clone, Copy, PartialEq, Eq, Structural)]
pub enum CheckKind {
    LexicalBlacklist,
    EmDashCount,
    TrailingParticiple,
    RuleOfThree,
    TransitionOpeners,
    Burstiness,
    CopulativeInflation,
    FormulaicConclusion,
    PatternedNegation,
    ThroatClearing,
    ChatbotArtifacts,
    ParagraphUniformity,
    EmphasisCrutches,
    VagueAttribution,
    Wordiness,
}

/// The name a check is configured under.
pub open spec fn kind_name(k: CheckKind) -> Seq<char> {
    match k {
        CheckKind::LexicalBlacklist => "lexical_blacklist"@,
        CheckKind::EmDashCount => "em_dash_count"@,
        CheckKind::TrailingParticiple => "trailing_participle"@,
        CheckKind::RuleOfThree => "rule_of_three"@,
        CheckKind::TransitionOpeners => "transition_openers"@,
        CheckKind::Burstiness => "burstiness"@,
        CheckKind::CopulativeInflation => "copulative_inflation"@,
        CheckKind::FormulaicConclusion => "formulaic_conclusion"@,
        CheckKind::PatternedNegation => "patterned_negation"@,
        CheckKind::ThroatClearing => "throat_clearing"@,
        CheckKind::ChatbotArtifacts => "chatbot_artifacts"@,
        CheckKind::ParagraphUniformity => "paragraph_uniformity"@,
        CheckKind::EmphasisCrutches => "emphasis_crutches"@,
        CheckKind::VagueAttribution => "vague_attribution"@,
        CheckKind::Wordiness => "wordiness"@,
    }
}

pub fn check_name(k: CheckKind) -> (s: &'static str)
    ensures
        s@ == kind_name(k),
{
    match k {
        CheckKind::LexicalBlacklist => "lexical_blacklist",
        CheckKind::EmDashCount => "em_dash_count",
        CheckKind::TrailingParticiple => "trailing_participle",
        CheckKind::RuleOfThree => "rule_of_three",
        CheckKind::TransitionOpeners => "transition_openers",
        CheckKind::Burstiness => "burstiness",
        CheckKind::CopulativeInflation => "copulative_inflation",
        CheckKind::FormulaicConclusion => "formulaic_conclusion",
        CheckKind::PatternedNegation => "patterned_negation",
        CheckKind::ThroatClearing => "throat_clearing",
        CheckKind::ChatbotArtifacts => "chatbot_artifacts",
        CheckKind::ParagraphUniformity => "paragraph_uniformity",
        CheckKind::EmphasisCrutches => "emphasis_crutches",
        CheckKind::VagueAttribution => "vague_attribution",
        CheckKind::Wordiness => "wordiness",
    }
}

/// The built-in penalty per flag.
pub open spec fn default_penalty(k: CheckKind) -> u32 {
    match k {
        CheckKind::LexicalBlacklist => 8,
        CheckKind::EmDashCount => 10,
        CheckKind::TrailingParticiple => 10,
        CheckKind::RuleOfThree => 5,
        CheckKind::TransitionOpeners => 8,
        CheckKind::Burstiness => 20,
        CheckKind::CopulativeInflation => 5,
        CheckKind::FormulaicConclusion => 10,
        CheckKind::PatternedNegation => 5,
        CheckKind::ThroatClearing => 8,
        CheckKind::ChatbotArtifacts => 10,
        CheckKind::ParagraphUniformity => 15,
        CheckKind::EmphasisCrutches => 5,
        CheckKind::VagueAttribution => 5,
        CheckKind::Wordiness => 3,
    }
}

/// The built-in cap on a check's penalty.
pub open spec fn default_max(k: CheckKind) -> u32 {
    match k {
        CheckKind::LexicalBlacklist => 60,
        CheckKind::EmDashCount => 10,
        CheckKind::TrailingParticiple => 30,
        CheckKind::RuleOfThree => 20,
        CheckKind::TransitionOpeners => 24,
        CheckKind::Burstiness => 20,
        CheckKind::CopulativeInflation => 20,
        CheckKind::FormulaicConclusion => 20,
        CheckKind::PatternedNegation => 15,
        CheckKind::ThroatClearing => 24,
        CheckKind::ChatbotArtifacts => 20,
        CheckKind::ParagraphUniformity => 15,
        CheckKind::EmphasisCrutches => 15,
        CheckKind::VagueAttribution => 15,
        CheckKind::Wordiness => 12,
    }
}

fn default_penalty_exec(k: CheckKind) -> (r: u32)
    ensures
        r == default_penalty(k),
{
    match k {
        CheckKind::LexicalBlacklist => 8,
        CheckKind::EmDashCount => 10,
        CheckKind::TrailingParticiple => 10,
        CheckKind::RuleOfThree => 5,
        CheckKind::TransitionOpeners => 8,
        CheckKind::Burstiness => 20,
        CheckKind::CopulativeInflation => 5,
        CheckKind::FormulaicConclusion => 10,
        CheckKind::PatternedNegation => 5,
        CheckKind::ThroatClearing => 8,
        CheckKind::ChatbotArtifacts => 10,
        CheckKind::ParagraphUniformity => 15,
        CheckKind::EmphasisCrutches => 5,
        CheckKind::VagueAttribution => 5,
        CheckKind::Wordiness => 3,
    }
}

fn default_max_exec(k: CheckKind) -> (r: u32)
    ensures
        r == default_max(k),
{
    match k {
        CheckKind::LexicalBlacklist => 60,
        CheckKind::EmDashCount => 10,
        CheckKind::TrailingParticiple => 30,
        CheckKind::RuleOfThree => 20,
        CheckKind::TransitionOpeners => 24,
        CheckKind::Burstiness => 20,
        CheckKind::CopulativeInflation => 20,
        CheckKind::FormulaicConclusion => 20,
        CheckKind::PatternedNegation => 15,
        CheckKind::ThroatClearing => 24,
        CheckKind::ChatbotArtifacts => 20,
        CheckKind::ParagraphUniformity => 15,
        CheckKind::EmphasisCrutches => 15,
        CheckKind::VagueAttribution => 15,
        CheckKind::Wordiness => 12,
    }
}

/// The checks in the order they run.
pub open spec fn default_kinds() -> Seq<CheckKind> {
    seq![
        CheckKind::LexicalBlacklist,
        CheckKind::EmDashCount,
        CheckKind::TrailingParticiple,
        CheckKind::RuleOfThree,
        CheckKind::TransitionOpeners,
        CheckKind::Burstiness,
        CheckKind::CopulativeInflation,
        CheckKind::FormulaicConclusion,
        CheckKind::PatternedNegation,
        CheckKind::ThroatClearing,
        CheckKind::ChatbotArtifacts,
        CheckKind::ParagraphUniformity,
        CheckKind::EmphasisCrutches,
        CheckKind::VagueAttribution,
        CheckKind::Wordiness,
    ]
}

fn default_kind_list() -> (v: Vec<CheckKind>)
    ensures
        v@ == default_kinds(),
{
    let mut v: Vec<CheckKind> = Vec::new();
    v.push(CheckKind::LexicalBlacklist);
    v.push(CheckKind::EmDashCount);
    v.push(CheckKind::TrailingParticiple);
    v.push(CheckKind::RuleOfThree);
    v.push(CheckKind::TransitionOpeners);
    v.push(CheckKind::Burstiness);
    v.push(CheckKind::CopulativeInflation);
    v.push(CheckKind::FormulaicConclusion);
    v.push(CheckKind::PatternedNegation);
    v.push(CheckKind::ThroatClearing);
    v.push(CheckKind::ChatbotArtifacts);
    v.push(CheckKind::ParagraphUniformity);
    v.push(CheckKind::EmphasisCrutches);
    v.push(CheckKind::VagueAttribution);
    v.push(CheckKind::Wordiness);
    assert(v@ =~= default_kinds());
    v
}

/// The checks in the alphabetical order of their names.
pub open spec fn alphabetical_kinds() -> Seq<CheckKind> {
    seq![
        CheckKind::Burstiness,
        CheckKind::ChatbotArtifacts,
        CheckKind::CopulativeInflation,
        CheckKind::EmDashCount,
        CheckKind::EmphasisCrutches,
        CheckKind::FormulaicConclusion,
        CheckKind::LexicalBlacklist,
        CheckKind::ParagraphUniformity,
        CheckKind::PatternedNegation,
        CheckKind::RuleOfThree,
        CheckKind::ThroatClearing,
        CheckKind::TrailingParticiple,
        CheckKind::TransitionOpeners,
        CheckKind::VagueAttribution,
        CheckKind::Wordiness,
    ]
}

fn alphabetical_kind_list() -> (v: Vec<CheckKind>)
    ensures
        v@ == alphabetical_kinds(),
{
    let mut v: Vec<CheckKind> = Vec::new();
    v.push(CheckKind::Burstiness);
    v.push(CheckKind::ChatbotArtifacts);
    v.push(CheckKind::CopulativeInflation);
    v.push(CheckKind::EmDashCount);
    v.push(CheckKind::EmphasisCrutches);
    v.push(CheckKind::FormulaicConclusion);
    v.push(CheckKind::LexicalBlacklist);
    v.push(CheckKind::ParagraphUniformity);
    v.push(CheckKind::PatternedNegation);
    v.push(CheckKind::RuleOfThree);
    v.push(CheckKind::ThroatClearing);
    v.push(CheckKind::TrailingParticiple);
    v.push(CheckKind::TransitionOpeners);
    v.push(CheckKind::VagueAttribution);
    v.push(CheckKind::Wordiness);
    assert(v@ =~= alphabetical_kinds());
    v
}

/// The flags a check raises on `t` with parameters `p`.
pub open spec fn check_flags(k: CheckKind, t: Seq<char>, p: Option<TomlTable>) -> Seq<FlagView> {
    match k {
        CheckKind::LexicalBlacklist => patterns_flags(lexical_style(), t, lexical_patterns(p)),
        CheckKind::EmDashCount => em_dash_flags(t, p),
        CheckKind::TrailingParticiple => patterns_flags(trailing_style(), t, seq![(trailing_participle_pattern(), "Trailing participial phrase detected"@)]),
        CheckKind::RuleOfThree => patterns_flags(rule_of_three_style(), t, seq![(rule_of_three_pattern(), "Rule-of-three triplet detected"@)]),
        CheckKind::TransitionOpeners => transition_flags(t, p),
        CheckKind::Burstiness => burstiness_flags(t, p),
        CheckKind::CopulativeInflation => copulative_flags(t, p),
        CheckKind::FormulaicConclusion => conclusion_flags(t, p),
        CheckKind::PatternedNegation => negation_flags(t, p),
        CheckKind::ThroatClearing => phrase_flags(throat_clearing_style(), default_throat_clearing_patterns(), t, p),
        CheckKind::ChatbotArtifacts => phrase_flags(chatbot_artifacts_style(), default_chatbot_artifacts_patterns(), t, p),
        CheckKind::ParagraphUniformity => paragraph_uniformity_flags(t, p),
        CheckKind::EmphasisCrutches => phrase_flags(emphasis_crutches_style(), default_emphasis_crutches_patterns(), t, p),
        CheckKind::VagueAttribution => phrase_flags(vague_attribution_style(), default_vague_attribution_patterns(), t, p),
        CheckKind::Wordiness => phrase_flags(wordiness_style(), default_wordiness_patterns(), t, p),
    }
}

/// The checks whose pattern is built from parameters need it to compile.
pub open spec fn check_runnable(k: CheckKind, p: Option<TomlTable>) -> bool {
    match k {
        CheckKind::TransitionOpeners => transition_pattern_ok(p),
        CheckKind::FormulaicConclusion => conclusion_pattern_ok(p),
        _ => true,
    }
}

/// Runs one check.
pub fn run_check(k: CheckKind, text: &str, params: Option<&TomlTable>) -> (r: Vec<SlopFlag>)
    requires
        check_runnable(k, opt_table(params)),
    ensures
        flags_view(r@) == check_flags(k, text@, opt_table(params)),
{
    match k {
        CheckKind::LexicalBlacklist => check_lexical_blacklist(text, params),
        CheckKind::EmDashCount => check_em_dash_count(text, params),
        CheckKind::TrailingParticiple => check_trailing_participle(text, params),
        CheckKind::RuleOfThree => check_rule_of_three(text, params),
        CheckKind::TransitionOpeners => check_transition_openers(text, params),
        CheckKind::Burstiness => check_burstiness(text, params),
        CheckKind::CopulativeInflation => check_copulative_inflation(text, params),
        CheckKind::FormulaicConclusion => check_formulaic_conclusion(text, params),
        CheckKind::PatternedNegation => check_patterned_negation(text, params),
        CheckKind::ThroatClearing => check_throat_clearing(text, params),
        CheckKind::ChatbotArtifacts => check_chatbot_artifacts(text, params),
        CheckKind::ParagraphUniformity => check_paragraph_uniformity(text, params),
        CheckKind::EmphasisCrutches => check_emphasis_crutches(text, params),
        CheckKind::VagueAttribution => check_vague_attribution(text, params),
        CheckKind::Wordiness => check_wordiness(text, params),
    }
}

// ---------------------------------------------------------------------------
// Resolving checks against a configuration
// ---------------------------------------------------------------------------

/// A check with its (possibly configured) penalties.
#[derive(Debug, Clone, Copy, PartialEq, Eq, Structural)]
pub struct ResolvedCheck {
    pub kind: CheckKind,
    pub penalty_per_flag: u32,
    pub max_penalty: u32,
}

/// The checks of `ks` under configuration `c`: a configured check keeps its
/// penalties unless disabled (then it is left out); an unconfigured one keeps the
/// built-in penalties.
pub open spec fn resolve_from(c: Config, ks: Seq<CheckKind>) -> Seq<ResolvedCheck>
    decreases ks.len(),
{
    if ks.len() == 0 {
        Seq::empty()
    } else {
        let rest = resolve_from(c, ks.drop_last());
        let k = ks.last();
        match config_get(c, kind_name(k)) {
            Some(cc) => if cc.enabled {
                rest.push(
                    ResolvedCheck {
                        kind: k,
                        penalty_per_flag: cc.penalty_per_flag,
                        max_penalty: cc.max_penalty,
                    },
                )
            } else {
                rest
            },
            None => rest.push(
                ResolvedCheck { kind: k, penalty_per_flag: default_penalty(k), max_penalty: default_max(k) },
            ),
        }
    }
}

/// The checks that run: all fifteen with built-in penalties when there is no
/// configuration, else as configured.
pub open spec fn resolve(cfg: Option<Config>) -> Seq<ResolvedCheck> {
    match cfg {
        Some(c) => resolve_from(c, default_kinds()),
        None => default_kinds().map_values(
            |k: CheckKind|
                ResolvedCheck { kind: k, penalty_per_flag: default_penalty(k), max_penalty: default_max(k) },
        ),
    }
}

proof fn lemma_resolve_from_len(c: Config, ks: Seq<CheckKind>)
    ensures
        resolve_from(c, ks).len() <= ks.len(),
    decreases ks.len(),
{
    if ks.len() > 0 {
        lemma_resolve_from_len(c, ks.drop_last());
    }
}

/// The checks that run under the configuration (see [`resolve`]).
pub fn resolve_checks(config: Option<&Config>) -> (r: Vec<ResolvedCheck>)
    ensures
        r@ == resolve(opt_config(config)),
        r@.len() <= 15,
{
    let kinds = default_kind_list();
    let mut r: Vec<ResolvedCheck> = Vec::new();
    let mut i: usize = 0;
    while i < kinds.len()
        invariant
            i <= kinds.len(),
            kinds@ == default_kinds(),
            match config {
                Some(c) => r@ == resolve_from(*c, kinds@.take(i as int)),
                None => r@ == kinds@.take(i as int).map_values(
                    |k: CheckKind|
                        ResolvedCheck {
                            kind: k,
                            penalty_per_flag: default_penalty(k),
                            max_penalty: default_max(k),
                        },
                ),
            },
        decreases kinds.len() - i,
    {
        let k = kinds[i];
        assert(kinds@.take(i + 1).drop_last() =~= kinds@.take(i as int));
        assert(kinds@.take(i + 1).last() == k);
        match config {
            Some(c) => {
                match c.get(check_name(k)) {
                    Some(cc) => {
                        if cc.enabled {
                            r.push(
                                ResolvedCheck {
                                    kind: k,
                                    penalty_per_flag: cc.penalty_per_flag,
                                    max_penalty: cc.max_penalty,
                                },
                            );
                        }
                    },
                    None => {
                        r.push(
                            ResolvedCheck {
                                kind: k,
                                penalty_per_flag: default_penalty_exec(k),
                                max_penalty: default_max_exec(k),
                            },
                        );
                    },
                }
            },
            None => {
                r.push(
                    ResolvedCheck {
                        kind: k,
                        penalty_per_flag: default_penalty_exec(k),
                        max_penalty: default_max_exec(k),
                    },
                );
            },
        }
        i += 1;
        proof {
            if config is None {
                assert(r@ =~= kinds@.take(i as int).map_values(
                    |k: CheckKind|
                        ResolvedCheck {
                            kind: k,
                            penalty_per_flag: default_penalty(k),
                            max_penalty: default_max(k),
                        },
                ));
            }
        }
    }
    assert(kinds@.take(kinds.len() as int) =~= kinds@);
    proof {
        if let Some(c) = config {
            lemma_resolve_from_len(*c, kinds@);
        }
    }
    r
}

/// The parameters a check gets: those of its configuration entry, if any.
pub open spec fn params_for(cfg: Option<Config>, k: CheckKind) -> Option<TomlTable> {
    match cfg {
        Some(c) => match config_get(c, kind_name(k)) {
            Some(cc) => Some(cc.params),
            None => None,
        },
        None => None,
    }
}

/// Every check that runs can run (its parameter-built pattern compiles).
pub open spec fn analysis_runnable(cfg: Option<Config>) -> bool {
    forall|i: int|
        0 <= i < resolve(cfg).len() ==> check_runnable(
            #[trigger] resolve(cfg)[i].kind,
            params_for(cfg, resolve(cfg)[i].kind),
        )
}

// ---------------------------------------------------------------------------
// Scoring
// ---------------------------------------------------------------------------

/// The flags one resolved check raises.
pub open spec fn flags_of(t: Seq<char>, cfg: Option<Config>, r: ResolvedCheck) -> Seq<FlagView> {
    check_flags(r.kind, t, params_for(cfg, r.kind))
}

/// Every flag, check by check in running order.
pub open spec fn all_flags(t: Seq<char>, cfg: Option<Config>) -> Seq<FlagView> {
    resolve(cfg).map_values(|r: ResolvedCheck| flags_of(t, cfg, r)).flatten()
}

/// Each check that runs with the number of flags it raised.
pub open spec fn outcomes(t: Seq<char>, cfg: Option<Config>) -> Seq<(ResolvedCheck, nat)> {
    resolve(cfg).map_values(|r: ResolvedCheck| (r, flags_of(t, cfg, r).len()))
}

/// A check's penalty: its flag count (as `u32`) times its penalty per flag,
/// capped at its maximum.
pub open spec fn contribution(o: (ResolvedCheck, nat)) -> nat {
    let c = ((o.1 as u32) as nat) * (o.0.penalty_per_flag as nat);
    if c <= o.0.max_penalty {
        c
    } else {
        o.0.max_penalty as nat
    }
}

/// The total of the checks' penalties.
pub open spec fn raw_penalty(os: Seq<(ResolvedCheck, nat)>) -> nat
    decreases os.len(),
{
    if os.len() == 0 {
        0
    } else {
        raw_penalty(os.drop_last()) + contribution(os.last())
    }
}

/// The total of the maxima of the checks that fired.
pub open spec fn applicable_max(os: Seq<(ResolvedCheck, nat)>) -> nat
    decreases os.len(),
{
    if os.len() == 0 {
        0
    } else {
        applicable_max(os.drop_last()) + if os.last().1 > 0 {
            os.last().0.max_penalty as nat
        } else {
            0
        }
    }
}

/// The three largest values seen, largest first (zeros when fewer).
pub open spec fn top3(s: Seq<nat>) -> (nat, nat, nat)
    decreases s.len(),
{
    if s.len() == 0 {
        (0, 0, 0)
    } else {
        let t = top3(s.drop_last());
        let x = s.last();
        if x >= t.0 {
            (x, t.0, t.1)
        } else if x >= t.1 {
            (t.0, x, t.1)
        } else if x >= t.2 {
            (t.0, t.1, x)
        } else {
            t
        }
    }
}

/// The sum of the three largest values.
pub open spec fn top3_sum(s: Seq<nat>) -> nat {
    top3(s).0 + top3(s).1 + top3(s).2
}

/// The maxima of the checks that run.
pub open spec fn maxima(rs: Seq<ResolvedCheck>) -> Seq<nat> {
    rs.map_values(|r: ResolvedCheck| r.max_penalty as nat)
}

/// The denominator: the maxima of the fired checks, but at least the sum of the
/// three largest maxima of all checks that run (and at least 1).
pub open spec fn denominator(os: Seq<(ResolvedCheck, nat)>, rs: Seq<ResolvedCheck>) -> nat {
    let a = applicable_max(os);
    let f = top3_sum(maxima(rs));
    let e = if a >= f {
        a
    } else {
        f
    };
    if e == 0 {
        1
    } else {
        e
    }
}

/// The score: `raw / den · 100` rounded down, computed in double precision (the
/// quotient and then the product rounded to the nearest double), at most 100. A
/// zero penalty scores 0; a penalty at or above the denominator scores 100.
pub open spec fn score_of(raw: nat, den: nat) -> nat {
    if raw == 0 {
        0
    } else if raw >= den {
        100
    } else {
        let s = f64_percent_floor(raw, den);
        if s <= 100 {
            s
        } else {
            100
        }
    }
}

/// The score of `t` under the configuration.
pub open spec fn score(t: Seq<char>, cfg: Option<Config>) -> nat {
    score_of(raw_penalty(outcomes(t, cfg)), denominator(outcomes(t, cfg), resolve(cfg)))
}

/// The outcome of check `k`, if it ran.
pub open spec fn outcome_for(os: Seq<(ResolvedCheck, nat)>, k: CheckKind) -> Option<(ResolvedCheck, nat)>
    decreases os.len(),
{
    if os.len() == 0 {
        None
    } else if os[0].0.kind == k {
        Some(os[0])
    } else {
        outcome_for(os.drop_first(), k)
    }
}

/// The breakdown entries for `ks`, in that order: each check that ran and fired.
pub open spec fn breakdown_for(os: Seq<(ResolvedCheck, nat)>, ks: Seq<CheckKind>) -> Seq<(Seq<char>, CheckScore)>
    decreases ks.len(),
{
    if ks.len() == 0 {
        Seq::empty()
    } else {
        let rest = breakdown_for(os, ks.drop_last());
        match outcome_for(os, ks.last()) {
            Some(o) => if o.1 > 0 {
                rest.push(
                    (
                        kind_name(ks.last()),
                        CheckScore {
                            penalty: contribution(o) as u32,
                            max: o.0.max_penalty,
                            flags: o.1 as u32,
                        },
                    ),
                )
            } else {
                rest
            },
            None => rest,
        }
    }
}

/// The per-check breakdown, ordered by check name.
pub open spec fn breakdown(t: Seq<char>, cfg: Option<Config>) -> Seq<(Seq<char>, CheckScore)> {
    breakdown_for(outcomes(t, cfg), alphabetical_kinds())
}

pub open spec fn outs_view(v: Seq<(ResolvedCheck, usize)>) -> Seq<(ResolvedCheck, nat)> {
    v.map_values(|o: (ResolvedCheck, usize)| (o.0, o.1 as nat))
}

proof fn lemma_outcome_for(os: Seq<(ResolvedCheck, nat)>, k: CheckKind)
    ensures
        outcome_for(os, k) matches Some(o) ==> exists|j: int|
            0 <= j < os.len() && os[j] == o && os[j].0.kind == k && forall|m: int|
                0 <= m < j ==> (#[trigger] os[m]).0.kind != k,
        outcome_for(os, k) is None ==> forall|m: int|
            0 <= m < os.len() ==> (#[trigger] os[m]).0.kind != k,
    decreases os.len(),
{
    if os.len() > 0 {
        lemma_outcome_for(os.drop_first(), k);
        assert forall|m: int| 1 <= m < os.len() implies os[m] == os.drop_first()[m - 1] by {}
        if os[0].0.kind != k {
            if let Some(o) = outcome_for(os, k) {
                let j = choose|j: int|
                    0 <= j < os.drop_first().len() && os.drop_first()[j] == o
                        && os.drop_first()[j].0.kind == k && forall|m: int|
                        0 <= m < j ==> (#[trigger] os.drop_first()[m]).0.kind != k;
                assert(os[j + 1] == o);
                assert forall|m: int| 0 <= m < j + 1 implies (#[trigger] os[m]).0.kind != k by {
                    if m > 0 {
                        assert(os[m] == os.drop_first()[m - 1]);
                    }
                }
            }
        }
    }
}

/// The outcome recorded for `k`, if it ran.
fn find_outcome(outs: &Vec<(ResolvedCheck, usize)>, k: CheckKind) -> (r: Option<(ResolvedCheck, usize)>)
    ensures
        match outcome_for(outs_view(outs@), k) {
            Some(o) => r matches Some(x) && x.0 == o.0 && x.1 as nat == o.1,
            None => r is None,
        },
{
    let ghost ov = outs_view(outs@);
    proof {
        lemma_outcome_for(ov, k);
    }
    let mut i: usize = 0;
    while i < outs.len()
        invariant
            i <= outs.len(),
            ov == outs_view(outs@),
            forall|m: int| 0 <= m < i ==> (#[trigger] ov[m]).0.kind != k,
            outcome_for(ov, k) matches Some(o) ==> exists|j: int|
                i <= j < ov.len() && ov[j] == o && ov[j].0.kind == k && forall|m: int|
                    0 <= m < j ==> (#[trigger] ov[m]).0.kind != k,
            outcome_for(ov, k) is None ==> forall|m: int|
                0 <= m < ov.len() ==> (#[trigger] ov[m]).0.kind != k,
        decreases outs.len() - i,
    {
        assert(ov[i as int] == (outs@[i as int].0, outs@[i as int].1 as nat));
        if outs[i].0.kind == k {
            return Some(outs[i]);
        }
        i += 1;
    }
    None
}

/// The three largest maxima of the checks, largest first.
fn top3_exec(checks: &Vec<ResolvedCheck>) -> (r: (u64, u64, u64))
    ensures
        r.0 as nat == top3(maxima(checks@)).0,
        r.1 as nat == top3(maxima(checks@)).1,
        r.2 as nat == top3(maxima(checks@)).2,
        r.0 <= u32::MAX && r.1 <= u32::MAX && r.2 <= u32::MAX,
{
    let mut a: u64 = 0;
    let mut b: u64 = 0;
    let mut c: u64 = 0;
    let mut i: usize = 0;
    while i < checks.len()
        invariant
            i <= checks.len(),
            a as nat == top3(maxima(checks@).take(i as int)).0,
            b as nat == top3(maxima(checks@).take(i as int)).1,
            c as nat == top3(maxima(checks@).take(i as int)).2,
            a <= u32::MAX && b <= u32::MAX && c <= u32::MAX,
        decreases checks.len() - i,
    {
        assert(maxima(checks@).take(i + 1).drop_last() =~= maxima(checks@).take(i as int));
        let x = checks[i].max_penalty as u64;
        if x >= a {
            c = b;
            b = a;
            a = x;
        } else if x >= b {
            c = b;
            b = x;
        } else if x >= c {
            c = x;
        }
        i += 1;
    }
    assert(maxima(checks@).take(checks.len() as int) =~= maxima(checks@));
    (a, b, c)
}

/// What analysing `t` gives: `passed` exactly when the score is below
/// `slop_threshold`; for blank text (whitespace only) score 0, no flags and no
/// breakdown; otherwise every flag of every check that runs, the score, and the
/// per-check breakdown.
pub open spec fn is_analysis(r: SlopResult, t: Seq<char>, slop_threshold: u32, cfg: Option<Config>) -> bool {
    &&& r.passed == (r.score < slop_threshold)
    &&& if all_ws(t) {
        r.score == 0 && r.flags@.len() == 0 && r.check_scores@.len() == 0
    } else {
        &&& flags_view(r.flags@) == all_flags(t, cfg)
        &&& r.score as nat == score(t, cfg)
        &&& scores_view(r.check_scores@) == breakdown(t, cfg)
    }
}

/// Runs all slop checks on `text` and scores it.
///
/// - `score` is in [0, 100] where 0 is pristine and 100 is maximum slop.
/// - `flags` lists every individual match from every check.
/// - `passed` is true when `score < slop_threshold`.
pub fn analyze(text: &str, slop_threshold: u32, config: Option<&Config>) -> (r: SlopResult)
    requires
        !all_ws(text@) ==> analysis_runnable(opt_config(config)),
    ensures
        is_analysis(r, text@, slop_threshold, opt_config(config)),
{
    if trim_is_empty(text) {
        return SlopResult {
            score: 0,
            flags: Vec::new(),
            passed: 0 < slop_threshold,
            check_scores: Vec::new(),
        };
    }
    let ghost cfg = opt_config(config);
    let threshold = slop_threshold;
    let checks = resolve_checks(config);
    let ghost f = |r: ResolvedCheck| flags_of(text@, cfg, r);
    let mut all: Vec<SlopFlag> = Vec::new();
    let mut outs: Vec<(ResolvedCheck, usize)> = Vec::new();
    let mut raw: u64 = 0;
    let mut applicable: u64 = 0;
    let mut i: usize = 0;
    while i < checks.len()
        invariant
            cfg == opt_config(config),
            checks@ == resolve(cfg),
            checks@.len() <= 15,
            i <= checks.len(),
            analysis_runnable(cfg),
            f == (|r: ResolvedCheck| flags_of(text@, cfg, r)),
            flags_view(all@) == checks@.take(i as int).map_values(f).flatten(),
            outs_view(outs@) == outcomes(text@, cfg).take(i as int),
            raw as nat == raw_penalty(outcomes(text@, cfg).take(i as int)),
            applicable as nat == applicable_max(outcomes(text@, cfg).take(i as int)),
            raw <= i * 0xFFFF_FFFFu64,
            applicable <= i * 0xFFFF_FFFFu64,
        decreases checks.len() - i,
    {
        let rc = checks[i];
        let params: Option<&TomlTable> = match config {
            Some(c) => match c.get(check_name(rc.kind)) {
                Some(cc) => Some(&cc.params),
                None => None,
            },
            None => None,
        };
        assert(opt_table(params) == params_for(cfg, rc.kind));
        assert(check_runnable(resolve(cfg)[i as int].kind, params_for(cfg, resolve(cfg)[i as int].kind)));
        let mut flags = run_check(rc.kind, text, params);
        let n = flags.len();
        #[verifier::truncate]
        let n32: u32 = n as u32;
        assert((n32 as u64) * (rc.penalty_per_flag as u64) <= u64::MAX) by (nonlinear_arith)
            requires
                n32 <= u32::MAX,
                rc.penalty_per_flag <= u32::MAX,
        ;
        let prod: u64 = (n32 as u64) * (rc.penalty_per_flag as u64);
        let share: u64 = if prod <= rc.max_penalty as u64 {
            prod
        } else {
            rc.max_penalty as u64
        };
        proof {
            let os = outcomes(text@, cfg);
            assert(os[i as int] == (rc, flags_of(text@, cfg, rc).len()));
            assert(os.take(i + 1).drop_last() =~= os.take(i as int));
            assert(os.take(i + 1).last() == os[i as int]);
            assert(share as nat == contribution(os[i as int]));
        }
        raw = raw + share;
        if n > 0 {
            applicable = applicable + rc.max_penalty as u64;
        }
        outs.push((rc, n));
        let ghost before = flags_view(all@);
        let ghost added = flags_view(flags@);
        all.append(&mut flags);
        proof {
            let prev = checks@.take(i as int).map_values(f);
            assert(checks@.take(i + 1).map_values(f) =~= prev.push(f(checks@[i as int])));
            prev.lemma_flatten_push(f(checks@[i as int]));
            assert(flags_view(all@) =~= before + added);
            assert(outs_view(outs@) =~= outcomes(text@, cfg).take(i + 1));
        }
        i += 1;
    }
    assert(checks@.take(checks.len() as int) =~= checks@);
    assert(outcomes(text@, cfg).take(checks.len() as int) =~= outcomes(text@, cfg));
    let (a, b, c) = top3_exec(&checks);
    let floor = a + b + c;
    let effective = if applicable >= floor {
        applicable
    } else {
        floor
    };
    let den = if effective == 0 {
        1
    } else {
        effective
    };
    proof {
        lemma_top3(maxima(checks@));
        assert(den < 0x100_0000_0000);
    }
    let score_value: u32 = if raw == 0 {
        0
    } else if raw >= den {
        100
    } else {
        let s = percent_floor(raw, den);
        if s <= 100 {
            s as u32
        } else {
            100
        }
    };
    // Per-check breakdown, in the alphabetical order of the check names.
    let kinds = alphabetical_kind_list();
    let mut scores: Vec<(String, CheckScore)> = Vec::new();
    let mut j: usize = 0;
    while j < kinds.len()
        invariant
            j <= kinds.len(),
            kinds@ == alphabetical_kinds(),
            outs_view(outs@) == outcomes(text@, cfg),
            scores_view(scores@) == breakdown_for(outs_view(outs@), kinds@.take(j as int)),
        decreases kinds.len() - j,
    {
        let k = kinds[j];
        assert(kinds@.take(j + 1).drop_last() =~= kinds@.take(j as int));
        assert(kinds@.take(j + 1).last() == k);
        match find_outcome(&outs, k) {
            Some(o) => {
                if o.1 > 0 {
                    #[verifier::truncate]
                    let n32: u32 = o.1 as u32;
                    assert((n32 as u64) * (o.0.penalty_per_flag as u64) <= u64::MAX) by (nonlinear_arith)
                        requires
                            n32 <= u32::MAX,
                            o.0.penalty_per_flag <= u32::MAX,
                    ;
                    let prod: u64 = (n32 as u64) * (o.0.penalty_per_flag as u64);
                    let share: u32 = if prod <= o.0.max_penalty as u64 {
                        prod as u32
                    } else {
                        o.0.max_penalty
                    };
                    scores.push(
                        (
                            check_name(k).to_owned(),
                            CheckScore { penalty: share, max: o.0.max_penalty, flags: n32 },
                        ),
                    );
                }
            },
            None => {},
        }
        j += 1;
        assert(scores_view(scores@) =~= breakdown_for(outs_view(outs@), kinds@.take(j as int)));
    }
    assert(kinds@.take(kinds.len() as int) =~= kinds@);
    SlopResult { score: score_value, flags: all, passed: score_value < threshold, check_scores: scores }
}

/// Whether `check_runnable` holds, testing the pattern of the checks that build
/// one from their parameters.
fn runnable(k: CheckKind, params: Option<&TomlTable>) -> (b: bool)
    ensures
        b == check_runnable(k, opt_table(params)),
{
    match k {
        CheckKind::TransitionOpeners => {
            let p = transition_pattern_of(params);
            pattern_compiles(p.as_str())
        },
        CheckKind::FormulaicConclusion => {
            let p = conclusion_pattern_of(params);
            pattern_compiles(p.as_str())
        },
        _ => true,
    }
}

/// [`analyze`], or `None` when the text is not blank and a pattern built from
/// the configuration does not compile (where `analyze` cannot run).
pub fn analyze_checked(text: &str, slop_threshold: u32, config: Option<&Config>) -> (r: Option<
    SlopResult,
>)
    ensures
        r is Some <==> (all_ws(text@) || analysis_runnable(opt_config(config))),
        r matches Some(res) ==> is_analysis(res, text@, slop_threshold, opt_config(config)),
{
    if trim_is_empty(text) {
        return Some(analyze(text, slop_threshold, config));
    }
    let ghost cfg = opt_config(config);
    let checks = resolve_checks(config);
    let mut i: usize = 0;
    while i < checks.len()
        invariant
            cfg == opt_config(config),
            !all_ws(text@),
            checks@ == resolve(cfg),
            i <= checks.len(),
            forall|m: int|
                0 <= m < i ==> check_runnable(
                    #[trigger] resolve(cfg)[m].kind,
                    params_for(cfg, resolve(cfg)[m].kind),
                ),
        decreases checks.len() - i,
    {
        let k = checks[i].kind;
        let params: Option<&TomlTable> = match config {
            Some(c) => match c.get(check_name(k)) {
                Some(cc) => Some(&cc.params),
                None => None,
            },
            None => None,
        };
        assert(opt_table(params) == params_for(cfg, k));
        if !runnable(k, params) {
            return None;
        }
        i += 1;
    }
    Some(analyze(text, slop_threshold, config))
}

// ---------------------------------------------------------------------------
// Laws of the score
// ---------------------------------------------------------------------------

proof fn lemma_top3(s: Seq<nat>)
    ensures
        top3(s).0 >= top3(s).1 >= top3(s).2,
        forall|i: int| 0 <= i < s.len() ==> #[trigger] s[i] <= top3(s).0,
        forall|i: int, j: int|
            0 <= i < s.len() && 0 <= j < s.len() && i != j ==> #[trigger] s[i] + #[trigger] s[j]
                <= top3(s).0 + top3(s).1,
    decreases s.len(),
{
    if s.len() > 0 {
        let p = s.drop_last();
        lemma_top3(p);
        assert forall|i: int| 0 <= i < s.len() - 1 implies s[i] == p[i] by {}
        assert forall|i: int, j: int|
            0 <= i < s.len() && 0 <= j < s.len() && i != j implies #[trigger] s[i] + #[trigger] s[j]
                <= top3(s).0 + top3(s).1 by {
            if i < s.len() - 1 && j < s.len() - 1 {
                assert(s[i] == p[i] && s[j] == p[j]);
            } else if i < s.len() - 1 {
                assert(s[i] == p[i]);
            } else {
                assert(s[j] == p[j]);
            }
        }
    }
}

proof fn lemma_contribution(o: (ResolvedCheck, nat))
    ensures
        contribution(o) <= o.0.max_penalty,
        o.1 == 0 ==> contribution(o) == 0,
{
    if o.1 == 0 {
        let z = o.1 as u32;
        assert(z == 0);
        let zn = z as nat;
        let pn = o.0.penalty_per_flag as nat;
        assert(zn == 0);
        assert(zn * pn == 0) by (nonlinear_arith)
            requires
                zn == 0,
        ;
    }
}

proof fn lemma_raw_le_applicable(os: Seq<(ResolvedCheck, nat)>)
    ensures
        raw_penalty(os) <= applicable_max(os),
    decreases os.len(),
{
    if os.len() > 0 {
        lemma_raw_le_applicable(os.drop_last());
        lemma_contribution(os.last());
    }
}

proof fn lemma_applicable_single(os: Seq<(ResolvedCheck, nat)>, i: int, k: int)
    requires
        0 <= i < os.len(),
        0 <= k <= os.len(),
        forall|m: int| 0 <= m < os.len() && m != i ==> (#[trigger] os[m]).1 == 0,
    ensures
        applicable_max(os.take(k)) == if i < k && os[i].1 > 0 {
            os[i].0.max_penalty as nat
        } else {
            0
        },
    decreases k,
{
    if k > 0 {
        lemma_applicable_single(os, i, k - 1);
        assert(os.take(k).drop_last() =~= os.take(k - 1));
        assert(os.take(k).last() == os[k - 1]);
    }
}

/// The score lies in 0..=100, and the checks' penalties never exceed the
/// denominator, which counts the maximum of every check that fired: the score
/// is 100 only when the penalties reach the denominator.
pub proof fn law_score_at_most_100(t: Seq<char>, cfg: Option<Config>)
    ensures
        raw_penalty(outcomes(t, cfg)) <= denominator(outcomes(t, cfg), resolve(cfg)),
        score(t, cfg) <= 100,
        score(t, cfg) == 100 ==> raw_penalty(outcomes(t, cfg)) == denominator(
            outcomes(t, cfg),
            resolve(cfg),
        ),
{
    let os = outcomes(t, cfg);
    let raw = raw_penalty(os);
    let den = denominator(os, resolve(cfg));
    lemma_raw_le_applicable(os);
    assert(raw <= den);
    lemma_denominator_bound(t, cfg);
    if 0 < raw && raw < den {
        lemma_percent_below_100(raw, den);
    }
}

/// The denominator is below 2^40: at most fifteen checks, each maximum a `u32`.
proof fn lemma_denominator_bound(t: Seq<char>, cfg: Option<Config>)
    ensures
        denominator(outcomes(t, cfg), resolve(cfg)) < 0x100_0000_0000,
{
    let rs = resolve(cfg);
    let os = outcomes(t, cfg);
    match cfg {
        Some(c) => {
            lemma_resolve_from_len(c, default_kinds());
        },
        None => {},
    }
    assert(rs.len() <= 15);
    lemma_applicable_bound(os);
    lemma_top3_bounded(maxima(rs));
}

proof fn lemma_applicable_bound(os: Seq<(ResolvedCheck, nat)>)
    ensures
        applicable_max(os) <= os.len() * 0xFFFF_FFFF,
    decreases os.len(),
{
    if os.len() > 0 {
        lemma_applicable_bound(os.drop_last());
    }
}

proof fn lemma_top3_bounded(s: Seq<nat>)
    requires
        forall|i: int| 0 <= i < s.len() ==> #[trigger] s[i] <= 0xFFFF_FFFF,
    ensures
        top3(s).0 <= 0xFFFF_FFFF,
        top3(s).1 <= 0xFFFF_FFFF,
        top3(s).2 <= 0xFFFF_FFFF,
    decreases s.len(),
{
    if s.len() > 0 {
        let p = s.drop_last();
        assert forall|i: int| 0 <= i < p.len() implies #[trigger] p[i] <= 0xFFFF_FFFF by {
            assert(p[i] == s[i]);
        }
        lemma_top3_bounded(p);
    }
}

/// The denominator is never below the sum of the three largest maxima of the
/// checks that run.
pub proof fn law_denominator_floor(t: Seq<char>, cfg: Option<Config>)
    ensures
        denominator(outcomes(t, cfg), resolve(cfg)) >= top3_sum(maxima(resolve(cfg))),
        denominator(outcomes(t, cfg), resolve(cfg)) >= applicable_max(outcomes(t, cfg)),
{
}

/// A single check firing cannot score 100 while another check that runs has a
/// positive maximum: the floor of the denominator holds the other maximum too.
pub proof fn law_single_check_below_100(t: Seq<char>, cfg: Option<Config>, i: int, j: int)
    requires
        0 <= i < resolve(cfg).len(),
        0 <= j < resolve(cfg).len(),
        i != j,
        resolve(cfg)[j].max_penalty > 0,
        forall|m: int|
            0 <= m < resolve(cfg).len() && m != i ==> (#[trigger] outcomes(t, cfg)[m]).1 == 0,
    ensures
        score(t, cfg) < 100,
{
    let os = outcomes(t, cfg);
    let rs = resolve(cfg);
    let ms = maxima(rs);
    lemma_raw_le_applicable(os);
    lemma_applicable_single(os, i, os.len() as int);
    assert(os.take(os.len() as int) =~= os);
    lemma_top3(ms);
    assert(ms[i] + ms[j] <= top3(ms).0 + top3(ms).1);
    assert(os[i].0 == rs[i]);
    let raw = raw_penalty(os);
    let den = denominator(os, rs);
    let mi = rs[i].max_penalty as nat;
    assert(applicable_max(os) <= mi);
    assert(den >= mi + 1);
    assert(raw <= mi);
    lemma_denominator_bound(t, cfg);
    if raw > 0 {
        lemma_percent_below_100(raw, den);
    }
}

/// Each check adds at most its own maximum, and nothing when it raised no flag.
pub proof fn law_check_penalty_capped(o: (ResolvedCheck, nat))
    ensures
        contribution(o) <= o.0.max_penalty,
        o.1 == 0 ==> contribution(o) == 0,
{
    lemma_contribution(o);
}

/// Every check that runs under a configuration is enabled there or not
/// configured at all.
proof fn lemma_resolved_enabled(c: Config, ks: Seq<CheckKind>)
    ensures
        forall|i: int|
            0 <= i < resolve_from(c, ks).len() ==> match config_get(
                c,
                kind_name(#[trigger] resolve_from(c, ks)[i].kind),
            ) {
                Some(cc) => cc.enabled,
                None => true,
            },
    decreases ks.len(),
{
    if ks.len() > 0 {
        lemma_resolved_enabled(c, ks.drop_last());
        let rest = resolve_from(c, ks.drop_last());
        assert forall|i: int| 0 <= i < resolve_from(c, ks).len() implies match config_get(
            c,
            kind_name(#[trigger] resolve_from(c, ks)[i].kind),
        ) {
            Some(cc) => cc.enabled,
            None => true,
        } by {
            if i < rest.len() {
                assert(resolve_from(c, ks)[i] == rest[i]);
            }
        }
    }
}

/// A check that the configuration disables does not run, so it raises no flag
/// and adds no penalty.
pub proof fn law_disabled_check_does_not_run(c: Config, k: CheckKind)
    requires
        config_get(c, kind_name(k)) matches Some(cc) && !cc.enabled,
    ensures
        forall|i: int| 0 <= i < resolve(Some(c)).len() ==> (#[trigger] resolve(Some(c))[i]).kind != k,
{
    lemma_resolved_enabled(c, default_kinds());
}

/// The threshold decides only `passed`: analyses of the same text under the same
/// configuration have the same score, flags and breakdown at any thresholds.
pub proof fn law_threshold_only_decides_passed(
    r1: SlopResult,
    r2: SlopResult,
    t: Seq<char>,
    th1: u32,
    th2: u32,
    cfg: Option<Config>,
)
    requires
        is_analysis(r1, t, th1, cfg),
        is_analysis(r2, t, th2, cfg),
    ensures
        r1.score == r2.score,
        flags_view(r1.flags@) == flags_view(r2.flags@),
        scores_view(r1.check_scores@) == scores_view(r2.check_scores@),
        r1.passed == (r1.score < th1),
        r2.passed == (r2.score < th2),
{
    if all_ws(t) {
        assert(flags_view(r1.flags@) =~= flags_view(r2.flags@));
        assert(scores_view(r1.check_scores@) =~= scores_view(r2.check_scores@));
    }
}

// ---------------------------------------------------------------------------
// The breakdown accounts for every flag
// ---------------------------------------------------------------------------

/// How many flags check `k` raised (0 when it did not run).
pub open spec fn fired(os: Seq<(ResolvedCheck, nat)>, k: CheckKind) -> nat {
    match outcome_for(os, k) {
        Some(o) => o.1,
        None => 0,
    }
}

pub open spec fn sum_fired(os: Seq<(ResolvedCheck, nat)>, ks: Seq<CheckKind>) -> nat
    decreases ks.len(),
{
    if ks.len() == 0 {
        0
    } else {
        sum_fired(os, ks.drop_last()) + fired(os, ks.last())
    }
}

/// The flags of all checks that ran.
pub open spec fn total_flags(os: Seq<(ResolvedCheck, nat)>) -> nat
    decreases os.len(),
{
    if os.len() == 0 {
        0
    } else {
        total_flags(os.drop_last()) + os.last().1
    }
}

/// The flag counts of a breakdown, added up.
pub open spec fn breakdown_flags(bs: Seq<(Seq<char>, CheckScore)>) -> nat
    decreases bs.len(),
{
    if bs.len() == 0 {
        0
    } else {
        breakdown_flags(bs.drop_last()) + bs.last().1.flags as nat
    }
}

/// No two checks of `os` are of the same kind.
pub open spec fn kinds_distinct(os: Seq<(ResolvedCheck, nat)>) -> bool {
    forall|i: int, j: int| 0 <= i < j < os.len() ==> (#[trigger] os[i]).0.kind != (#[trigger] os[j]).0.kind
}

pub open spec fn seq_distinct(ks: Seq<CheckKind>) -> bool {
    forall|i: int, j: int| 0 <= i < j < ks.len() ==> #[trigger] ks[i] != #[trigger] ks[j]
}

proof fn lemma_outcome_for_push(os: Seq<(ResolvedCheck, nat)>, x: (ResolvedCheck, nat), k: CheckKind)
    ensures
        outcome_for(os.push(x), k) == match outcome_for(os, k) {
            Some(o) => Some(o),
            None => if x.0.kind == k {
                Some(x)
            } else {
                None
            },
        },
    decreases os.len(),
{
    assert(os.push(x).len() > 0);
    if os.len() > 0 {
        assert(os.push(x)[0] == os[0]);
        assert(os.push(x).drop_first() =~= os.drop_first().push(x));
        lemma_outcome_for_push(os.drop_first(), x, k);
    } else {
        assert(os.push(x)[0] == x);
        assert(os.push(x).drop_first() =~= Seq::<(ResolvedCheck, nat)>::empty());
    }
}

proof fn lemma_sum_fired_empty(ks: Seq<CheckKind>)
    ensures
        sum_fired(Seq::<(ResolvedCheck, nat)>::empty(), ks) == 0,
    decreases ks.len(),
{
    if ks.len() > 0 {
        lemma_sum_fired_empty(ks.drop_last());
    }
}

/// Adding an outcome of a new kind adds its count once, when `ks` holds the kind.
proof fn lemma_sum_fired_push(os: Seq<(ResolvedCheck, nat)>, x: (ResolvedCheck, nat), ks: Seq<CheckKind>)
    requires
        seq_distinct(ks),
        outcome_for(os, x.0.kind) is None,
    ensures
        sum_fired(os.push(x), ks) == sum_fired(os, ks) + if ks.contains(x.0.kind) {
            x.1
        } else {
            0
        },
    decreases ks.len(),
{
    if ks.len() > 0 {
        let p = ks.drop_last();
        assert(seq_distinct(p)) by {
            assert forall|i: int, j: int| 0 <= i < j < p.len() implies #[trigger] p[i] != #[trigger] p[j] by {
                assert(p[i] == ks[i] && p[j] == ks[j]);
            }
        }
        lemma_sum_fired_push(os, x, p);
        lemma_outcome_for_push(os, x, ks.last());
        if ks.last() == x.0.kind {
            assert(ks[ks.len() - 1] == x.0.kind);
            if p.contains(x.0.kind) {
                let i = choose|i: int| 0 <= i < p.len() && p[i] == x.0.kind;
                assert(ks[i] == p[i]);
                assert(false);
            }
        } else {
            if ks.contains(x.0.kind) {
                let i = choose|i: int| 0 <= i < ks.len() && ks[i] == x.0.kind;
                assert(i < ks.len() - 1);
                assert(p[i] == ks[i]);
            }
            if p.contains(x.0.kind) {
                let i = choose|i: int| 0 <= i < p.len() && p[i] == x.0.kind;
                assert(ks[i] == p[i]);
            }
        }
    }
}

proof fn lemma_outcome_for_absent(os: Seq<(ResolvedCheck, nat)>, k: CheckKind)
    requires
        forall|i: int| 0 <= i < os.len() ==> (#[trigger] os[i]).0.kind != k,
    ensures
        outcome_for(os, k) is None,
    decreases os.len(),
{
    if os.len() > 0 {
        assert forall|i: int| 0 <= i < os.drop_first().len() implies (#[trigger] os.drop_first()[i]).0.kind != k by {
            assert(os.drop_first()[i] == os[i + 1]);
        }
        lemma_outcome_for_absent(os.drop_first(), k);
    }
}

/// Summed over a list holding every kind once, the flag counts of checks of
/// distinct kinds make their total.
proof fn lemma_sum_fired_total(os: Seq<(ResolvedCheck, nat)>, ks: Seq<CheckKind>)
    requires
        seq_distinct(ks),
        kinds_distinct(os),
        forall|i: int| 0 <= i < os.len() ==> ks.contains((#[trigger] os[i]).0.kind),
    ensures
        sum_fired(os, ks) == total_flags(os),
    decreases os.len(),
{
    if os.len() == 0 {
        lemma_sum_fired_empty(ks);
        assert(os =~= Seq::<(ResolvedCheck, nat)>::empty());
    } else {
        let p = os.drop_last();
        let x = os.last();
        assert(kinds_distinct(p)) by {
            assert forall|i: int, j: int| 0 <= i < j < p.len() implies (#[trigger] p[i]).0.kind
                != (#[trigger] p[j]).0.kind by {
                assert(p[i] == os[i] && p[j] == os[j]);
            }
        }
        assert forall|i: int| 0 <= i < p.len() implies ks.contains((#[trigger] p[i]).0.kind) by {
            assert(p[i] == os[i]);
        }
        lemma_sum_fired_total(p, ks);
        assert forall|i: int| 0 <= i < p.len() implies (#[trigger] p[i]).0.kind != x.0.kind by {
            assert(p[i] == os[i]);
            assert(os[os.len() - 1] == x);
        }
        lemma_outcome_for_absent(p, x.0.kind);
        assert(os =~= p.push(x));
        assert(ks.contains(os[os.len() - 1].0.kind));
        lemma_sum_fired_push(p, x, ks);
        assert(sum_fired(os, ks) == sum_fired(p, ks) + x.1);
        assert(total_flags(os) == total_flags(p) + x.1);
    }
}

/// Every kind is among the alphabetical kinds, which are distinct.
proof fn lemma_alphabetical_kinds(k: CheckKind)
    ensures
        alphabetical_kinds().contains(k),
        seq_distinct(alphabetical_kinds()),
{
    let a = alphabetical_kinds();
    match k {
        CheckKind::Burstiness => assert(a[0] == k),
        CheckKind::ChatbotArtifacts => assert(a[1] == k),
        CheckKind::CopulativeInflation => assert(a[2] == k),
        CheckKind::EmDashCount => assert(a[3] == k),
        CheckKind::EmphasisCrutches => assert(a[4] == k),
        CheckKind::FormulaicConclusion => assert(a[5] == k),
        CheckKind::LexicalBlacklist => assert(a[6] == k),
        CheckKind::ParagraphUniformity => assert(a[7] == k),
        CheckKind::PatternedNegation => assert(a[8] == k),
        CheckKind::RuleOfThree => assert(a[9] == k),
        CheckKind::ThroatClearing => assert(a[10] == k),
        CheckKind::TrailingParticiple => assert(a[11] == k),
        CheckKind::TransitionOpeners => assert(a[12] == k),
        CheckKind::VagueAttribution => assert(a[13] == k),
        CheckKind::Wordiness => assert(a[14] == k),
    }
}

/// The checks resolved from distinct kinds are of distinct kinds, each one of them.
proof fn lemma_resolve_from_kinds(c: Config, ks: Seq<CheckKind>)
    requires
        seq_distinct(ks),
    ensures
        forall|i: int| 0 <= i < resolve_from(c, ks).len() ==> ks.contains((#[trigger] resolve_from(c, ks)[i]).kind),
        forall|i: int, j: int|
            0 <= i < j < resolve_from(c, ks).len() ==> (#[trigger] resolve_from(c, ks)[i]).kind
                != (#[trigger] resolve_from(c, ks)[j]).kind,
    decreases ks.len(),
{
    if ks.len() > 0 {
        let p = ks.drop_last();
        assert(seq_distinct(p)) by {
            assert forall|i: int, j: int| 0 <= i < j < p.len() implies #[trigger] p[i] != #[trigger] p[j] by {
                assert(p[i] == ks[i] && p[j] == ks[j]);
            }
        }
        lemma_resolve_from_kinds(c, p);
        let rest = resolve_from(c, p);
        let r = resolve_from(c, ks);
        assert forall|i: int| 0 <= i < r.len() implies ks.contains((#[trigger] r[i]).kind) by {
            if i < rest.len() {
                assert(r[i] == rest[i]);
                let m = choose|m: int| 0 <= m < p.len() && p[m] == rest[i].kind;
                assert(ks[m] == p[m]);
            } else {
                assert(r[i].kind == ks.last());
                assert(ks[ks.len() - 1] == ks.last());
            }
        }
        assert forall|i: int, j: int| 0 <= i < j < r.len() implies (#[trigger] r[i]).kind
            != (#[trigger] r[j]).kind by {
            if j < rest.len() {
                assert(r[i] == rest[i] && r[j] == rest[j]);
            } else {
                assert(r[i] == rest[i]);
                assert(r[j].kind == ks.last());
                let m = choose|m: int| 0 <= m < p.len() && p[m] == rest[i].kind;
                assert(ks[m] == p[m]);
                assert(ks[ks.len() - 1] == ks.last());
            }
        }
    }
}

/// The checks that run are of distinct kinds.
proof fn lemma_outcomes_distinct(t: Seq<char>, cfg: Option<Config>)
    ensures
        kinds_distinct(outcomes(t, cfg)),
{
    let d = default_kinds();
    assert(seq_distinct(d)) by {
        assert forall|i: int, j: int| 0 <= i < j < d.len() implies #[trigger] d[i] != #[trigger] d[j] by {
            assert(0 <= i < 15 && 0 <= j < 15);
        }
    }
    let os = outcomes(t, cfg);
    match cfg {
        Some(c) => {
            lemma_resolve_from_kinds(c, d);
            assert forall|i: int, j: int| 0 <= i < j < os.len() implies (#[trigger] os[i]).0.kind
                != (#[trigger] os[j]).0.kind by {
                assert(os[i].0 == resolve(cfg)[i] && os[j].0 == resolve(cfg)[j]);
            }
        },
        None => {
            assert forall|i: int, j: int| 0 <= i < j < os.len() implies (#[trigger] os[i]).0.kind
                != (#[trigger] os[j]).0.kind by {
                assert(os[i].0.kind == d[i] && os[j].0.kind == d[j]);
            }
        },
    }
}

/// The outcome found for a kind is one of the outcomes.
proof fn lemma_outcome_for_member(os: Seq<(ResolvedCheck, nat)>, k: CheckKind)
    ensures
        outcome_for(os, k) matches Some(o) ==> exists|j: int| 0 <= j < os.len() && #[trigger] os[j] == o,
    decreases os.len(),
{
    if os.len() > 0 && os[0].0.kind != k {
        lemma_outcome_for_member(os.drop_first(), k);
        if let Some(o) = outcome_for(os, k) {
            let j = choose|j: int| 0 <= j < os.drop_first().len() && #[trigger] os.drop_first()[j] == o;
            assert(os[j + 1] == o);
        }
    }
}

/// The breakdown's flag counts, when each fits a `u32`, are the flags of its kinds.
proof fn lemma_breakdown_sum(os: Seq<(ResolvedCheck, nat)>, ks: Seq<CheckKind>)
    requires
        forall|i: int| 0 <= i < os.len() ==> (#[trigger] os[i]).1 <= u32::MAX,
    ensures
        breakdown_flags(breakdown_for(os, ks)) == sum_fired(os, ks),
    decreases ks.len(),
{
    if ks.len() > 0 {
        lemma_breakdown_sum(os, ks.drop_last());
        lemma_outcome_for_member(os, ks.last());
        let b = breakdown_for(os, ks);
        let rest = breakdown_for(os, ks.drop_last());
        if let Some(o) = outcome_for(os, ks.last()) {
            if o.1 > 0 {
                let j = choose|j: int| 0 <= j < os.len() && #[trigger] os[j] == o;
                assert(o.1 <= u32::MAX);
                assert(b.drop_last() =~= rest);
            }
        }
    }
}

/// Each breakdown entry has a flag, a penalty within its maximum, and the name
/// of a check that ran.
proof fn lemma_breakdown_entries(os: Seq<(ResolvedCheck, nat)>, ks: Seq<CheckKind>)
    requires
        forall|i: int| 0 <= i < os.len() ==> (#[trigger] os[i]).1 <= u32::MAX,
    ensures
        forall|j: int|
            0 <= j < breakdown_for(os, ks).len() ==> {
                &&& (#[trigger] breakdown_for(os, ks)[j]).1.flags >= 1
                &&& breakdown_for(os, ks)[j].1.penalty <= breakdown_for(os, ks)[j].1.max
                &&& exists|k: CheckKind|
                    breakdown_for(os, ks)[j].0 == kind_name(k) && #[trigger] outcome_for(os, k) is Some
            },
    decreases ks.len(),
{
    if ks.len() > 0 {
        lemma_breakdown_entries(os, ks.drop_last());
        lemma_outcome_for_member(os, ks.last());
        let b = breakdown_for(os, ks);
        let rest = breakdown_for(os, ks.drop_last());
        if let Some(o) = outcome_for(os, ks.last()) {
            lemma_contribution(o);
            if o.1 > 0 {
                let j = choose|j: int| 0 <= j < os.len() && #[trigger] os[j] == o;
                assert(o.1 <= u32::MAX);
                assert forall|j: int| 0 <= j < b.len() implies {
                    &&& (#[trigger] b[j]).1.flags >= 1
                    &&& b[j].1.penalty <= b[j].1.max
                    &&& exists|k: CheckKind| b[j].0 == kind_name(k) && #[trigger] outcome_for(os, k) is Some
                } by {
                    if j < rest.len() {
                        assert(b[j] == rest[j]);
                    } else {
                        assert(b[j].0 == kind_name(ks.last()));
                        assert(outcome_for(os, ks.last()) is Some);
                    }
                }
            }
        }
    }
}

/// The breakdown accounts for every flag: when each check's flag count fits a
/// `u32`, its counts add up to the number of flags; each entry has at least one
/// flag and a penalty within its maximum, and names a check that ran.
pub proof fn law_breakdown_totals(t: Seq<char>, cfg: Option<Config>)
    requires
        forall|i: int| 0 <= i < outcomes(t, cfg).len() ==> (#[trigger] outcomes(t, cfg)[i]).1 <= u32::MAX,
    ensures
        breakdown_flags(breakdown(t, cfg)) == all_flags(t, cfg).len(),
        forall|j: int|
            0 <= j < breakdown(t, cfg).len() ==> {
                &&& (#[trigger] breakdown(t, cfg)[j]).1.flags >= 1
                &&& breakdown(t, cfg)[j].1.penalty <= breakdown(t, cfg)[j].1.max
                &&& exists|k: CheckKind|
                    breakdown(t, cfg)[j].0 == kind_name(k) && #[trigger] outcome_for(outcomes(t, cfg), k) is Some
            },
{
    let os = outcomes(t, cfg);
    let ks = alphabetical_kinds();
    lemma_breakdown_sum(os, ks);
    lemma_breakdown_entries(os, ks);
    lemma_outcomes_distinct(t, cfg);
    lemma_alphabetical_kinds(CheckKind::Wordiness);
    assert forall|i: int| 0 <= i < os.len() implies ks.contains((#[trigger] os[i]).0.kind) by {
        lemma_alphabetical_kinds(os[i].0.kind);
    }
    lemma_sum_fired_total(os, ks);
    lemma_total_is_flag_count(t, cfg);
}

proof fn lemma_total_is_flag_count(t: Seq<char>, cfg: Option<Config>)
    ensures
        total_flags(outcomes(t, cfg)) == all_flags(t, cfg).len(),
{
    let ss = resolve(cfg).map_values(|r: ResolvedCheck| flags_of(t, cfg, r));
    ss.lemma_flatten_and_flatten_alt_are_equivalent();
    lemma_flatten_alt_len(ss, outcomes(t, cfg));
}

proof fn lemma_flatten_alt_len(ss: Seq<Seq<FlagView>>, os: Seq<(ResolvedCheck, nat)>)
    requires
        ss.len() == os.len(),
        forall|i: int| 0 <= i < ss.len() ==> (#[trigger] ss[i]).len() == os[i].1,
    ensures
        ss.flatten_alt().len() == total_flags(os),
    decreases ss.len(),
{
    if ss.len() > 0 {
        let p = ss.drop_last();
        let q = os.drop_last();
        assert forall|i: int| 0 <= i < p.len() implies (#[trigger] p[i]).len() == q[i].1 by {
            assert(p[i] == ss[i] && q[i] == os[i]);
        }
        lemma_flatten_alt_len(p, q);
    }
}

} // verus!
