//! The slop checks. Each takes the text (and optional parameters) and returns
//! the flags it raises; pattern searches go through `crate::matching`.
use vstd::prelude::*;
use vstd::utf8::*;
use crate::matching::{
    replace_all,
    regex_replace_all,
    capture_spans,
    captures_valid,
    regex_capture_spans,
    find_spans,
    find_spans_spec,
    spans_valid,
    regex_compiles,
    pattern_compiles,
    regex_find_spans,
};
use crate::models::{SlopFlag, FlagView, flag, flags_view, warning_sev, info_sev};
use crate::text::{
    byte_range,
    valid_range,
    chars_of,
    replace_chars,
    replace_char,
    trim_chars,
    trim,
    string_of,
    prefix,
    prefix_chars,
    concat2,
    concat3,
    slice_bytes,
    suffix_bytes,
    byte_len,
    str_eq,
    push_chars,
    push_decimal,
    decimal,
    count_char,
    count_occurrences,
    trim_str,
    word_count,
    word_count_spec,
    join,
    strings_view,
};
use vstd::string::StringExecFns;
use crate::double::{f64_ratio_tenths, ratio_tenths};
use crate::stats::{
    sample_sums,
    sample_fits,
    spread_below,
    spread_below_exec,
    spread,
    sum,
    sum_sq,
    lemma_sums,
    scaled_sq_dev,
    lemma_scaled_sq_dev_spread,
    sd_tenths,
    nearest_tenths_of_sqrt,
    round_tenths_sqrt,
    render_tenths,
    push_tenths,
    render_float,
    push_float,
};
use crate::value::{
    FloatValue,
    TomlTable,
    TomlValue,
    opt_table,
    param,
    table_get,
    as_table,
    as_array,
    as_int,
    as_float,
    strings_of,
    entry_pairs,
    array_strings,
    array_pairs,
    param_value,
};
use crate::matching::{escape, escaped};

verus! {

broadcast use vstd::string::group_string_axioms;

// ---------------------------------------------------------------------------
// Snippets
// ---------------------------------------------------------------------------

/// The last character start at or before byte `x` (0 when there is none).
pub open spec fn prev_char_start(b: Seq<u8>, x: int) -> int
    decreases x,
{
    if x <= 0 {
        0
    } else if x < b.len() && is_char_boundary(b, x) {
        x
    } else {
        prev_char_start(b, x - 1)
    }
}

/// The first character start at or after byte `y` (the length when there is none).
pub open spec fn next_char_start(b: Seq<u8>, y: int) -> int
    decreases b.len() - y,
{
    if y >= b.len() {
        b.len() as int
    } else if is_char_boundary(b, y) {
        y
    } else {
        next_char_start(b, y + 1)
    }
}

/// The text around bytes `start..end`, widened by `context` bytes on each side
/// to the nearest character starts, with newlines turned into spaces and
/// surrounding whitespace removed.
pub open spec fn snippet(t: Seq<char>, start: int, end: int, context: int) -> Seq<char> {
    let b = encode_utf8(t);
    let s = prev_char_start(b, if start >= context { start - context } else { 0 });
    let e = next_char_start(b, if end + context <= b.len() { end + context } else { b.len() as int });
    trim(replace_char(byte_range(t, s, e), '\n', ' '))
}

proof fn lemma_prev_char_start(b: Seq<u8>, x: int)
    requires
        valid_utf8(b),
    ensures
        0 <= prev_char_start(b, x) <= if x <= 0 { 0 } else { x },
        is_char_boundary(b, prev_char_start(b, x)),
        prev_char_start(b, x) <= b.len(),
    decreases x,
{
    if x > 0 && !(x < b.len() && is_char_boundary(b, x)) {
        lemma_prev_char_start(b, x - 1);
    }
}

proof fn lemma_next_char_start(b: Seq<u8>, y: int)
    requires
        valid_utf8(b),
        0 <= y,
    ensures
        y <= next_char_start(b, y) <= b.len() || (y > b.len() && next_char_start(b, y) == b.len()),
        is_char_boundary(b, next_char_start(b, y)),
    decreases b.len() - y,
{
    broadcast use vstd::utf8::is_char_boundary_start_end_of_seq;

    if y < b.len() && !is_char_boundary(b, y) {
        lemma_next_char_start(b, y + 1);
    }
}

/// The text of `text` around bytes `start..end` (see [`snippet`]).
pub fn snippet_around(text: &str, start: usize, end: usize, context: usize) -> (r: String)
    requires
        start <= end,
    ensures
        r@ == snippet(text@, start as int, end as int, context as int),
{
    broadcast use vstd::utf8::encode_utf8_valid_utf8;

    let ghost b = encode_utf8(text@);
    let len = byte_len(text);
    let x = if start >= context {
        start - context
    } else {
        0
    };
    let y = if end <= len && context <= len - end {
        end + context
    } else {
        len
    };
    // Walk back from `x` to a character start.
    let mut s = x;
    while s > 0 && !(s < len && text.is_char_boundary(s))
        invariant
            len == b.len(),
            b == encode_utf8(text@),
            prev_char_start(b, s as int) == prev_char_start(b, x as int),
        decreases s,
    {
        s -= 1;
    }
    // Walk forward from `y` to a character start.
    let mut e = y;
    while e < len && !text.is_char_boundary(e)
        invariant
            len == b.len(),
            b == encode_utf8(text@),
            e <= len,
            next_char_start(b, e as int) == next_char_start(b, y as int),
        decreases len - e,
    {
        e += 1;
    }
    proof {
        lemma_prev_char_start(b, x as int);
        lemma_next_char_start(b, y as int);
        assert(s == prev_char_start(b, x as int));
        assert(e == next_char_start(b, y as int));
    }
    let piece = slice_bytes(text, s, e);
    let chars = chars_of(piece);
    let flat = replace_chars(&chars, '\n', ' ');
    let trimmed = trim_chars(&flat);
    string_of(&trimmed)
}

/// The matched text of a span, as the regex reports it.
pub open spec fn span_text(t: Seq<char>, span: (usize, usize)) -> Seq<char> {
    byte_range(t, span.0 as int, span.1 as int)
}

/// The first 80 characters of a match.
pub open spec fn head80(t: Seq<char>, span: (usize, usize)) -> Seq<char> {
    prefix(span_text(t, span), 80)
}

/// The first 80 characters of the matched text, with newlines turned into spaces.
fn match_head(text: &str, span: (usize, usize), flatten_newlines: bool) -> (r: Vec<char>)
    requires
        valid_range(text@, span.0 as int, span.1 as int),
    ensures
        flatten_newlines ==> r@ == replace_char(head80(text@, span), '\n', ' '),
        !flatten_newlines ==> r@ == head80(text@, span),
{
    let m = slice_bytes(text, span.0, span.1);
    let chars = chars_of(m);
    let head = prefix_chars(&chars, 80);
    if flatten_newlines {
        replace_chars(&head, '\n', ' ')
    } else {
        head
    }
}

// ---------------------------------------------------------------------------
// Flags from pattern matches
// ---------------------------------------------------------------------------

/// What a flag's location quotes.
#[derive(Clone, Copy)]
pub enum Quote {
    /// The text around the match, widened by this many bytes.
    Around(usize),
    /// The first 80 characters of the match; `true` turns newlines into spaces.
    Head(bool),
}

/// How the flags of a pattern-based check are written.
#[derive(Clone, Copy)]
pub struct FlagStyle {
    pub check_name: &'static str,
    pub warning: bool,
    pub desc_prefix: &'static str,
    pub desc_suffix: &'static str,
    pub loc_prefix: &'static str,
    pub loc_suffix: &'static str,
    pub quote: Quote,
    /// Skip "acts as" matches that are followed by "acts as a deterrent".
    pub deterrent: bool,
}

pub open spec fn severity_of(style: FlagStyle) -> Seq<char> {
    if style.warning {
        warning_sev()
    } else {
        info_sev()
    }
}

/// The quoted text of a match.
pub open spec fn quoted(style: FlagStyle, t: Seq<char>, span: (usize, usize)) -> Seq<char> {
    match style.quote {
        Quote::Around(ctx) => snippet(t, span.0 as int, span.1 as int, ctx as int),
        Quote::Head(flat) => if flat {
            replace_char(head80(t, span), '\n', ' ')
        } else {
            head80(t, span)
        },
    }
}

/// The flag raised for one match of the pattern labelled `label`.
pub open spec fn span_flag(
    style: FlagStyle,
    t: Seq<char>,
    label: Seq<char>,
    span: (usize, usize),
) -> FlagView {
    flag(
        style.check_name@,
        style.desc_prefix@ + label + style.desc_suffix@,
        style.loc_prefix@ + quoted(style, t, span) + style.loc_suffix@,
        severity_of(style),
    )
}

/// The idiom "acts as a deterrent", which copulative inflation leaves alone.
pub open spec fn deterrent_pattern() -> Seq<char> {
    "(?i)\\bacts? as\\s+a\\s+deterrent\\b"@
}

/// Whether a match is skipped: an "acts as" match with the deterrent idiom
/// anywhere in the text from the match on.
pub open spec fn skipped(style: FlagStyle, t: Seq<char>, label: Seq<char>, span: (usize, usize)) -> bool {
    &&& style.deterrent
    &&& label == "acts as"@
    &&& find_spans_spec(
        deterrent_pattern(),
        byte_range(t, span.0 as int, encode_utf8(t).len() as int),
    ).len() > 0
}

/// The flags raised for the given matches of the pattern labelled `label`.
pub open spec fn spans_flags(
    style: FlagStyle,
    t: Seq<char>,
    label: Seq<char>,
    spans: Seq<(usize, usize)>,
) -> Seq<FlagView>
    decreases spans.len(),
{
    if spans.len() == 0 {
        Seq::empty()
    } else {
        let rest = spans_flags(style, t, label, spans.drop_last());
        if skipped(style, t, label, spans.last()) {
            rest
        } else {
            rest.push(span_flag(style, t, label, spans.last()))
        }
    }
}

/// Only matches of the pattern labelled "acts as" are ever skipped.
pub proof fn law_only_acts_as_skipped(style: FlagStyle, t: Seq<char>, label: Seq<char>, span: (usize, usize))
    ensures
        skipped(style, t, label, span) ==> label == "acts as"@,
{
}

/// The matches of any other pattern each raise their flag, in order: one flag
/// per match.
pub proof fn law_other_labels_flag_every_match(
    style: FlagStyle,
    t: Seq<char>,
    label: Seq<char>,
    spans: Seq<(usize, usize)>,
)
    requires
        label != "acts as"@,
    ensures
        spans_flags(style, t, label, spans).len() == spans.len(),
        forall|k: int|
            0 <= k < spans.len() ==> #[trigger] spans_flags(style, t, label, spans)[k]
                == span_flag(style, t, label, spans[k]),
    decreases spans.len(),
{
    if spans.len() > 0 {
        law_other_labels_flag_every_match(style, t, label, spans.drop_last());
        law_only_acts_as_skipped(style, t, label, spans.last());
    }
}

/// The flags raised by one `(pattern, label)` pair (none when it does not compile).
pub open spec fn pattern_flags(style: FlagStyle, t: Seq<char>, p: (Seq<char>, Seq<char>)) -> Seq<
    FlagView,
> {
    spans_flags(style, t, p.1, find_spans_spec(p.0, t))
}

/// The flags raised by a list of `(pattern, label)` pairs, pattern by pattern.
pub open spec fn patterns_flags(
    style: FlagStyle,
    t: Seq<char>,
    pats: Seq<(Seq<char>, Seq<char>)>,
) -> Seq<FlagView> {
    pats.map_values(|p: (Seq<char>, Seq<char>)| pattern_flags(style, t, p)).flatten()
}

pub open spec fn pairs_view(v: Seq<(String, String)>) -> Seq<(Seq<char>, Seq<char>)> {
    v.map_values(|p: (String, String)| (p.0@, p.1@))
}

fn quote_text(style: FlagStyle, text: &str, span: (usize, usize)) -> (r: Vec<char>)
    requires
        valid_range(text@, span.0 as int, span.1 as int),
    ensures
        r@ == quoted(style, text@, span),
{
    match style.quote {
        Quote::Around(ctx) => {
            let s = snippet_around(text, span.0, span.1, ctx);
            chars_of(s.as_str())
        },
        Quote::Head(flat) => match_head(text, span, flat),
    }
}

fn deterrent() -> (s: &'static str)
    ensures
        s@ == deterrent_pattern(),
{
    "(?i)\\bacts? as\\s+a\\s+deterrent\\b"
}

fn is_skipped(style: FlagStyle, text: &str, label: &str, span: (usize, usize)) -> (b: bool)
    requires
        valid_range(text@, span.0 as int, span.1 as int),
    ensures
        b == skipped(style, text@, label@, span),
{
    broadcast use vstd::utf8::encode_utf8_valid_utf8, vstd::utf8::is_char_boundary_start_end_of_seq;

    if !style.deterrent || !str_eq(label, "acts as") {
        return false;
    }
    let rest = suffix_bytes(text, span.0);
    match find_spans(deterrent(), rest) {
        Some(v) => v.len() > 0,
        None => false,
    }
}

/// Appends the flag for one match.
fn push_span_flag(
    flags: &mut Vec<SlopFlag>,
    style: FlagStyle,
    text: &str,
    label: &str,
    span: (usize, usize),
)
    requires
        valid_range(text@, span.0 as int, span.1 as int),
    ensures
        flags_view(final(flags)@) == flags_view(old(flags)@).push(
            span_flag(style, text@, label@, span),
        ),
{
    let desc = concat3(style.desc_prefix, label, style.desc_suffix);
    let q = quote_text(style, text, span);
    let mut loc = String::from_str(style.loc_prefix);
    push_chars(&mut loc, &q);
    loc.append(style.loc_suffix);
    let f = if style.warning {
        SlopFlag::warning(style.check_name, desc.as_str(), loc.as_str())
    } else {
        SlopFlag::info(style.check_name, desc.as_str(), loc.as_str())
    };
    flags.push(f);
    assert(flags_view(flags@) =~= flags_view(old(flags)@).push(span_flag(style, text@, label@, span)));
}

/// Appends the flags raised by one `(pattern, label)` pair.
fn push_pattern_flags(
    flags: &mut Vec<SlopFlag>,
    style: FlagStyle,
    text: &str,
    pattern: &str,
    label: &str,
)
    ensures
        flags_view(final(flags)@) == flags_view(old(flags)@) + pattern_flags(
            style,
            text@,
            (pattern@, label@),
        ),
{
    match find_spans(pattern, text) {
        None => {
            assert(flags_view(flags@) =~= flags_view(old(flags)@) + pattern_flags(
                style,
                text@,
                (pattern@, label@),
            ));
        },
        Some(spans) => {
            let mut i: usize = 0;
            while i < spans.len()
                invariant
                    i <= spans.len(),
                    spans_valid(text@, spans@),
                    spans@ == find_spans_spec(pattern@, text@),
                    flags_view(flags@) == flags_view(old(flags)@) + spans_flags(
                        style,
                        text@,
                        label@,
                        spans@.take(i as int),
                    ),
                decreases spans.len() - i,
            {
                let span = spans[i];
                assert(spans@.take(i + 1).drop_last() =~= spans@.take(i as int));
                assert(valid_range(text@, spans@[i as int].0 as int, spans@[i as int].1 as int));
                if !is_skipped(style, text, label, span) {
                    push_span_flag(flags, style, text, label, span);
                }
                i += 1;
                assert(flags_view(flags@) =~= flags_view(old(flags)@) + spans_flags(
                    style,
                    text@,
                    label@,
                    spans@.take(i as int),
                ));
            }
            assert(spans@.take(spans.len() as int) =~= spans@);
        },
    }
}

/// The flags raised by a list of `(pattern, label)` pairs, pattern by pattern.
pub fn flags_for_patterns(style: FlagStyle, text: &str, pats: &Vec<(String, String)>) -> (r: Vec<
    SlopFlag,
>)
    ensures
        flags_view(r@) == patterns_flags(style, text@, pairs_view(pats@)),
{
    let mut flags: Vec<SlopFlag> = Vec::new();
    let ghost f = |p: (Seq<char>, Seq<char>)| pattern_flags(style, text@, p);
    let mut j: usize = 0;
    while j < pats.len()
        invariant
            j <= pats.len(),
            f == (|p: (Seq<char>, Seq<char>)| pattern_flags(style, text@, p)),
            flags_view(flags@) == pairs_view(pats@).take(j as int).map_values(f).flatten(),
        decreases pats.len() - j,
    {
        let ghost before = flags_view(flags@);
        push_pattern_flags(&mut flags, style, text, pats[j].0.as_str(), pats[j].1.as_str());
        proof {
            let prev = pairs_view(pats@).take(j as int).map_values(f);
            assert(pairs_view(pats@).take(j + 1).map_values(f) =~= prev.push(
                f(pairs_view(pats@)[j as int]),
            ));
            prev.lemma_flatten_push(f(pairs_view(pats@)[j as int]));
        }
        j += 1;
    }
    assert(pairs_view(pats@).take(pats.len() as int) =~= pairs_view(pats@));
    flags
}

// ---------------------------------------------------------------------------
// 1. Lexical blacklist
// ---------------------------------------------------------------------------

/// The built-in lexical blacklist: `(pattern, label)` pairs.
pub open spec fn default_word_patterns() -> Seq<(Seq<char>, Seq<char>)> {
    seq![
        ("(?i)\\bdelve\\b"@, "delve"@),
        ("(?i)\\btapestry\\b"@, "tapestry"@),
        ("(?i)\\btestament\\b"@, "testament"@),
        ("(?i)\\bvibrant\\b"@, "vibrant"@),
        ("(?i)\\brobust\\b"@, "robust"@),
        ("(?i)\\bcrucial\\b"@, "crucial"@),
        ("(?i)\\bpivotal\\b"@, "pivotal"@),
        ("(?i)\\bfoster\\b"@, "foster"@),
        ("(?i)\\bcultivate\\b"@, "cultivate"@),
        ("(?i)\\bnestled\\b"@, "nestled"@),
        ("(?i)\\bboasts\\b"@, "boasts"@),
        ("(?i)\\bbreathtaking\\b"@, "breathtaking"@),
        ("(?i)\\bgroundbreaking\\b"@, "groundbreaking"@),
        ("(?i)\\bshowcasing\\b"@, "showcasing"@),
        ("(?i)\\brenowned\\b"@, "renowned"@),
        ("(?i)\\bunderscore[sd]?\\s+the\\b"@, "underscore (verb)"@),
        ("(?i)\\bhighlight[sd]?\\s+(?:the|its|their|our|a|an)\\b"@, "highlight (verb)"@),
        ("(?i)\\b(?:the|a|an)\\s+landscape\\s+of\\b"@, "landscape (metaphorical)"@),
        ("(?i)\\ba rich \\w+ of\\b"@, "a rich [noun] of"@),
        ("(?i)\\bstands as a\\b"@, "stands as a"@),
        ("(?i)\\bserves as a\\b"@, "serves as a"@),
        ("(?i)\\bholds the distinction\\b"@, "holds the distinction"@),
        ("(?i)\\breflects broader\\b"@, "reflects broader"@),
        ("(?i)\\bshaping the evolving\\b"@, "shaping the evolving"@),
        ("(?i)\\bmarking a pivotal\\b"@, "marking a pivotal"@),
        ("(?i)\\bleaving an indelible mark\\b"@, "leaving an indelible mark"@),
    ]
}

fn default_word_pattern_list() -> (v: Vec<(String, String)>)
    ensures
        pairs_view(v@) == default_word_patterns(),
{
    let mut v: Vec<(String, String)> = Vec::new();
    v.push(("(?i)\\bdelve\\b".to_owned(), "delve".to_owned()));
    v.push(("(?i)\\btapestry\\b".to_owned(), "tapestry".to_owned()));
    v.push(("(?i)\\btestament\\b".to_owned(), "testament".to_owned()));
    v.push(("(?i)\\bvibrant\\b".to_owned(), "vibrant".to_owned()));
    v.push(("(?i)\\brobust\\b".to_owned(), "robust".to_owned()));
    v.push(("(?i)\\bcrucial\\b".to_owned(), "crucial".to_owned()));
    v.push(("(?i)\\bpivotal\\b".to_owned(), "pivotal".to_owned()));
    v.push(("(?i)\\bfoster\\b".to_owned(), "foster".to_owned()));
    v.push(("(?i)\\bcultivate\\b".to_owned(), "cultivate".to_owned()));
    v.push(("(?i)\\bnestled\\b".to_owned(), "nestled".to_owned()));
    v.push(("(?i)\\bboasts\\b".to_owned(), "boasts".to_owned()));
    v.push(("(?i)\\bbreathtaking\\b".to_owned(), "breathtaking".to_owned()));
    v.push(("(?i)\\bgroundbreaking\\b".to_owned(), "groundbreaking".to_owned()));
    v.push(("(?i)\\bshowcasing\\b".to_owned(), "showcasing".to_owned()));
    v.push(("(?i)\\brenowned\\b".to_owned(), "renowned".to_owned()));
    v.push(("(?i)\\bunderscore[sd]?\\s+the\\b".to_owned(), "underscore (verb)".to_owned()));
    v.push(("(?i)\\bhighlight[sd]?\\s+(?:the|its|their|our|a|an)\\b".to_owned(), "highlight (verb)".to_owned()));
    v.push(("(?i)\\b(?:the|a|an)\\s+landscape\\s+of\\b".to_owned(), "landscape (metaphorical)".to_owned()));
    v.push(("(?i)\\ba rich \\w+ of\\b".to_owned(), "a rich [noun] of".to_owned()));
    v.push(("(?i)\\bstands as a\\b".to_owned(), "stands as a".to_owned()));
    v.push(("(?i)\\bserves as a\\b".to_owned(), "serves as a".to_owned()));
    v.push(("(?i)\\bholds the distinction\\b".to_owned(), "holds the distinction".to_owned()));
    v.push(("(?i)\\breflects broader\\b".to_owned(), "reflects broader".to_owned()));
    v.push(("(?i)\\bshaping the evolving\\b".to_owned(), "shaping the evolving".to_owned()));
    v.push(("(?i)\\bmarking a pivotal\\b".to_owned(), "marking a pivotal".to_owned()));
    v.push(("(?i)\\bleaving an indelible mark\\b".to_owned(), "leaving an indelible mark".to_owned()));
    assert(pairs_view(v@) =~= default_word_patterns());
    v
}

pub open spec fn lexical_style() -> FlagStyle {
    FlagStyle {
        check_name: "lexical_blacklist",
        warning: true,
        desc_prefix: "Banned phrase \"",
        desc_suffix: "\" found",
        loc_prefix: "...\"",
        loc_suffix: "\"...",
        quote: Quote::Around(20),
        deterrent: false,
    }
}

fn lexical_style_exec() -> (s: FlagStyle)
    ensures
        s == lexical_style(),
{
    FlagStyle {
        check_name: "lexical_blacklist",
        warning: true,
        desc_prefix: "Banned phrase \"",
        desc_suffix: "\" found",
        loc_prefix: "...\"",
        loc_suffix: "\"...",
        quote: Quote::Around(20),
        deterrent: false,
    }
}

/// The patterns a lexical config asks for: each word of `words.simple` as a
/// whole word (escaped, case-insensitive), then each `[pattern, label]` of
/// `patterns.entries` made case-insensitive.
pub open spec fn candidate_word_patterns(p: TomlTable) -> Seq<(Seq<char>, Seq<char>)> {
    let words = match as_array(param(as_table(table_get(p, "words"@)), "simple"@)) {
        Some(a) => strings_of(a).map_values(
            |w: Seq<char>| ("(?i)\\b"@ + escaped(w) + "\\b"@, w),
        ),
        None => Seq::empty(),
    };
    let entries = match as_array(param(as_table(table_get(p, "patterns"@)), "entries"@)) {
        Some(a) => entry_pairs(a).map_values(
            |e: (Seq<char>, Seq<char>)| ("(?i)"@ + e.0, e.1),
        ),
        None => Seq::empty(),
    };
    words + entries
}

/// The pairs whose pattern compiles, in order.
pub open spec fn keep_compiling(ps: Seq<(Seq<char>, Seq<char>)>) -> Seq<(Seq<char>, Seq<char>)>
    decreases ps.len(),
{
    if ps.len() == 0 {
        Seq::empty()
    } else {
        let rest = keep_compiling(ps.drop_last());
        if regex_compiles(ps.last().0) {
            rest.push(ps.last())
        } else {
            rest
        }
    }
}

/// A pair whose pattern compiles is kept.
pub proof fn lemma_keep_compiling(ps: Seq<(Seq<char>, Seq<char>)>, i: int)
    requires
        0 <= i < ps.len(),
        regex_compiles(ps[i].0),
    ensures
        keep_compiling(ps).contains(ps[i]),
    decreases ps.len(),
{
    if i < ps.len() - 1 {
        lemma_keep_compiling(ps.drop_last(), i);
        let r = keep_compiling(ps.drop_last());
        let j = choose|j: int| 0 <= j < r.len() && r[j] == ps[i];
        if regex_compiles(ps.last().0) {
            assert(r.push(ps.last())[j] == ps[i]);
        }
    } else {
        let r = keep_compiling(ps.drop_last());
        assert(r.push(ps.last())[r.len() as int] == ps[i]);
    }
}

/// The patterns built from a lexical config: those of
/// [`candidate_word_patterns`] that compile, in order.
pub open spec fn built_word_patterns(p: TomlTable) -> Seq<(Seq<char>, Seq<char>)> {
    keep_compiling(candidate_word_patterns(p))
}

/// The patterns the lexical blacklist searches for.
pub open spec fn lexical_patterns(params: Option<TomlTable>) -> Seq<(Seq<char>, Seq<char>)> {
    match params {
        Some(p) => built_word_patterns(p),
        None => default_word_patterns(),
    }
}

/// The `(pattern, label)` pairs of a lexical config whose patterns compile (see
/// [`built_word_patterns`]).
pub fn build_word_patterns(params: &TomlTable) -> (r: Vec<(String, String)>)
    ensures
        pairs_view(r@) == built_word_patterns(*params),
{
    let all = word_pattern_candidates(params);
    let ghost cs = pairs_view(all@);
    let mut r: Vec<(String, String)> = Vec::new();
    let mut i: usize = 0;
    while i < all.len()
        invariant
            i <= all.len(),
            cs == pairs_view(all@),
            pairs_view(r@) == keep_compiling(cs.take(i as int)),
        decreases all.len() - i,
    {
        assert(cs.take(i + 1).drop_last() =~= cs.take(i as int));
        assert(cs.take(i + 1).last() == cs[i as int]);
        if pattern_compiles(all[i].0.as_str()) {
            let ghost prev = r@;
            r.push((all[i].0.clone(), all[i].1.clone()));
            assert(pairs_view(r@) =~= pairs_view(prev).push(cs[i as int]));
        }
        i += 1;
    }
    assert(cs.take(all.len() as int) =~= cs);
    r
}

fn word_pattern_candidates(params: &TomlTable) -> (r: Vec<(String, String)>)
    ensures
        pairs_view(r@) == candidate_word_patterns(*params),
{
    let mut r: Vec<(String, String)> = Vec::new();
    let words_table = match params.get("words") {
        Some(w) => w.as_table(),
        None => None,
    };
    let simple = match words_table {
        Some(t) => t.get("simple"),
        None => None,
    };
    let simple_arr = match simple {
        Some(s) => s.as_array(),
        None => None,
    };
    if let Some(arr) = simple_arr {
        let words = array_strings(arr);
        let ghost ws = words@.map_values(|s: String| s@);
        let mut i: usize = 0;
        while i < words.len()
            invariant
                i <= words.len(),
                ws == words@.map_values(|s: String| s@),
                pairs_view(r@) == ws.take(i as int).map_values(
                    |w: Seq<char>| ("(?i)\\b"@ + escaped(w) + "\\b"@, w),
                ),
            decreases words.len() - i,
        {
            let e = escape(words[i].as_str());
            let pat = concat3("(?i)\\b", e.as_str(), "\\b");
            let w = words[i].clone();
            let ghost prev = r@;
            r.push((pat, w));
            proof {
                let f = |w: Seq<char>| ("(?i)\\b"@ + escaped(w) + "\\b"@, w);
                assert(ws[i as int] == words@[i as int]@);
                assert(pairs_view(r@)[r@.len() - 1] == f(ws[i as int]));
                assert(ws.take(i + 1).map_values(f) =~= ws.take(i as int).map_values(f).push(f(ws[i as int])));
                assert(pairs_view(r@) =~= pairs_view(prev).push(f(ws[i as int])));
            }
            i += 1;
            assert(pairs_view(r@) =~= ws.take(i as int).map_values(
                |w: Seq<char>| ("(?i)\\b"@ + escaped(w) + "\\b"@, w),
            ));
        }
        assert(ws.take(words.len() as int) =~= ws);
    }
    let ghost n_words = r@.len();
    let patterns_table = match params.get("patterns") {
        Some(w) => w.as_table(),
        None => None,
    };
    let entries = match patterns_table {
        Some(t) => t.get("entries"),
        None => None,
    };
    let entries_arr = match entries {
        Some(s) => s.as_array(),
        None => None,
    };
    let ghost words_part = pairs_view(r@);
    if let Some(arr) = entries_arr {
        let pairs = array_pairs(arr);
        let ghost ps = pairs_view(pairs@);
        let mut i: usize = 0;
        while i < pairs.len()
            invariant
                i <= pairs.len(),
                ps == pairs_view(pairs@),
                pairs_view(r@) == words_part + ps.take(i as int).map_values(
                    |e: (Seq<char>, Seq<char>)| ("(?i)"@ + e.0, e.1),
                ),
            decreases pairs.len() - i,
        {
            let pat = concat2("(?i)", pairs[i].0.as_str());
            let l = pairs[i].1.clone();
            let ghost prev = r@;
            r.push((pat, l));
            proof {
                let f = |e: (Seq<char>, Seq<char>)| ("(?i)"@ + e.0, e.1);
                assert(ps[i as int] == (pairs@[i as int].0@, pairs@[i as int].1@));
                assert(pairs_view(r@)[r@.len() - 1] == f(ps[i as int]));
                assert(ps.take(i + 1).map_values(f) =~= ps.take(i as int).map_values(f).push(f(ps[i as int])));
                assert(pairs_view(r@) =~= pairs_view(prev).push(f(ps[i as int])));
            }
            i += 1;
            assert(pairs_view(r@) =~= words_part + ps.take(i as int).map_values(
                |e: (Seq<char>, Seq<char>)| ("(?i)"@ + e.0, e.1),
            ));
        }
        assert(ps.take(pairs.len() as int) =~= ps);
    }
    assert(pairs_view(r@) =~= candidate_word_patterns(*params));
    r
}

/// Flags every match of the lexical blacklist: the built-in list, or the one the
/// parameters give (see [`built_word_patterns`]) when there are parameters.
pub fn check_lexical_blacklist(text: &str, params: Option<&TomlTable>) -> (r: Vec<SlopFlag>)
    ensures
        flags_view(r@) == patterns_flags(lexical_style(), text@, lexical_patterns(opt_table(params))),
{
    let pats = match params {
        Some(p) => build_word_patterns(p),
        None => default_word_pattern_list(),
    };
    flags_for_patterns(lexical_style_exec(), text, &pats)
}

// ---------------------------------------------------------------------------
// Custom pattern lists
// ---------------------------------------------------------------------------

/// Patterns made case-insensitive.
pub open spec fn prefixed(ps: Seq<(Seq<char>, Seq<char>)>) -> Seq<(Seq<char>, Seq<char>)> {
    ps.map_values(|e: (Seq<char>, Seq<char>)| ("(?i)"@ + e.0, e.1))
}

/// The `[pattern, label]` pairs under `patterns` when that parameter is an array.
pub open spec fn custom_patterns(params: Option<TomlTable>) -> Option<Seq<(Seq<char>, Seq<char>)>> {
    match as_array(param(params, "patterns"@)) {
        Some(a) => Some(prefixed(entry_pairs(a))),
        None => None,
    }
}

fn custom_pattern_list(params: Option<&TomlTable>) -> (r: Option<Vec<(String, String)>>)
    ensures
        match custom_patterns(opt_table(params)) {
            Some(ps) => r matches Some(v) && pairs_view(v@) == ps,
            None => r is None,
        },
{
    let arr = match param_value(params, "patterns") {
        Some(v) => v.as_array(),
        None => None,
    };
    match arr {
        None => None,
        Some(a) => {
            let pairs = array_pairs(a);
            let ghost ps = pairs_view(pairs@);
            let mut r: Vec<(String, String)> = Vec::new();
            let mut i: usize = 0;
            while i < pairs.len()
                invariant
                    i <= pairs.len(),
                    ps == pairs_view(pairs@),
                    pairs_view(r@) == prefixed(ps.take(i as int)),
                decreases pairs.len() - i,
            {
                let pat = concat2("(?i)", pairs[i].0.as_str());
                let l = pairs[i].1.clone();
                let ghost prev = r@;
                r.push((pat, l));
                proof {
                    let f = |e: (Seq<char>, Seq<char>)| ("(?i)"@ + e.0, e.1);
                    assert(ps[i as int] == (pairs@[i as int].0@, pairs@[i as int].1@));
                    assert(pairs_view(r@)[r@.len() - 1] == f(ps[i as int]));
                    assert(ps.take(i + 1).map_values(f) =~= ps.take(i as int).map_values(f).push(
                        f(ps[i as int]),
                    ));
                    assert(pairs_view(r@) =~= pairs_view(prev).push(f(ps[i as int])));
                }
                i += 1;
            }
            assert(ps.take(pairs.len() as int) =~= ps);
            Some(r)
        },
    }
}

// ---------------------------------------------------------------------------
// 2. Em-dash count
// ---------------------------------------------------------------------------

/// How many em-dashes are allowed: `max_allowed` (as `usize`), else 1.
pub open spec fn em_dash_max(params: Option<TomlTable>) -> usize {
    match as_int(param(params, "max_allowed"@)) {
        Some(i) => i as usize,
        None => 1,
    }
}

/// One warning when the text holds more em-dashes than allowed.
pub open spec fn em_dash_flags(t: Seq<char>, params: Option<TomlTable>) -> Seq<FlagView> {
    let n = count_char(t, '\u{2014}');
    let max = em_dash_max(params);
    if n <= max {
        Seq::empty()
    } else {
        seq![
            flag(
                "em_dash_count"@,
                "Text contains "@ + decimal(n) + " em-dashes (max "@ + decimal(max as nat)
                    + " allowed)"@,
                ""@,
                warning_sev(),
            ),
        ]
    }
}

/// How many em-dashes the parameters allow (see [`em_dash_max`]).
pub fn em_dash_limit(params: Option<&TomlTable>) -> (r: usize)
    ensures
        r == em_dash_max(opt_table(params)),
{
    match param_value(params, "max_allowed") {
        Some(v) => match v.as_integer() {
            Some(i) => i as usize,
            None => 1,
        },
        None => 1,
    }
}

pub fn check_em_dash_count(text: &str, params: Option<&TomlTable>) -> (r: Vec<SlopFlag>)
    ensures
        flags_view(r@) == em_dash_flags(text@, opt_table(params)),
{
    let max_allowed: usize = em_dash_limit(params);
    let em_dashes = count_occurrences(text, '\u{2014}');
    if em_dashes <= max_allowed {
        return Vec::new();
    }
    let mut desc = String::from_str("Text contains ");
    push_decimal(&mut desc, em_dashes as u128);
    desc.append(" em-dashes (max ");
    push_decimal(&mut desc, max_allowed as u128);
    desc.append(" allowed)");
    let mut r: Vec<SlopFlag> = Vec::new();
    r.push(SlopFlag::warning("em_dash_count", desc.as_str(), ""));
    assert(flags_view(r@) =~= em_dash_flags(text@, opt_table(params)));
    r
}

// ---------------------------------------------------------------------------
// 3. Trailing participle
// ---------------------------------------------------------------------------

pub open spec fn trailing_participle_pattern() -> Seq<char> {
    "(?i),\\s+[A-Za-z]+ing\\s+(?:the|its|their|our|an?|his|her|this|that|each|all)\\b[^.!?]*[.!?]"@
}

pub open spec fn trailing_style() -> FlagStyle {
    FlagStyle {
        check_name: "trailing_participle",
        warning: true,
        desc_prefix: "",
        desc_suffix: "",
        loc_prefix: "...\"",
        loc_suffix: "\"...",
        quote: Quote::Head(true),
        deterrent: false,
    }
}

fn trailing_style_exec() -> (s: FlagStyle)
    ensures
        s == trailing_style(),
{
    FlagStyle {
        check_name: "trailing_participle",
        warning: true,
        desc_prefix: "",
        desc_suffix: "",
        loc_prefix: "...\"",
        loc_suffix: "\"...",
        quote: Quote::Head(true),
        deterrent: false,
    }
}

/// A warning for each ", <word>ing the/its/..." clause running to the end of a sentence.
pub fn check_trailing_participle(text: &str, _params: Option<&TomlTable>) -> (r: Vec<SlopFlag>)
    ensures
        flags_view(r@) == patterns_flags(
            trailing_style(),
            text@,
            seq![(trailing_participle_pattern(), "Trailing participial phrase detected"@)],
        ),
{
    let mut pats: Vec<(String, String)> = Vec::new();
    pats.push(
        (
            "(?i),\\s+[A-Za-z]+ing\\s+(?:the|its|their|our|an?|his|her|this|that|each|all)\\b[^.!?]*[.!?]".to_owned(),
            "Trailing participial phrase detected".to_owned(),
        ),
    );
    assert(pairs_view(pats@) =~= seq![(trailing_participle_pattern(), "Trailing participial phrase detected"@)]);
    flags_for_patterns(trailing_style_exec(), text, &pats)
}

// ---------------------------------------------------------------------------
// 4. Rule of three
// ---------------------------------------------------------------------------

pub open spec fn rule_of_three_pattern() -> Seq<char> {
    "(?i)\\b(?:(?:very|quite|rather|truly|deeply|highly|incredibly|extremely)\\s+)?[A-Za-z]{2,},\\s+(?:(?:very|quite|rather|truly|deeply|highly|incredibly|extremely)\\s+)?[A-Za-z]{2,},\\s+(?:and|or)\\s+(?:(?:very|quite|rather|truly|deeply|highly|incredibly|extremely)\\s+)?[A-Za-z]{2,}\\b"@
}

pub open spec fn rule_of_three_style() -> FlagStyle {
    FlagStyle {
        check_name: "rule_of_three",
        warning: false,
        desc_prefix: "",
        desc_suffix: "",
        loc_prefix: "\"",
        loc_suffix: "\"",
        quote: Quote::Head(false),
        deterrent: false,
    }
}

fn rule_of_three_style_exec() -> (s: FlagStyle)
    ensures
        s == rule_of_three_style(),
{
    FlagStyle {
        check_name: "rule_of_three",
        warning: false,
        desc_prefix: "",
        desc_suffix: "",
        loc_prefix: "\"",
        loc_suffix: "\"",
        quote: Quote::Head(false),
        deterrent: false,
    }
}

/// An info flag for each comma-separated triplet ("x, y, and z").
pub fn check_rule_of_three(text: &str, _params: Option<&TomlTable>) -> (r: Vec<SlopFlag>)
    ensures
        flags_view(r@) == patterns_flags(
            rule_of_three_style(),
            text@,
            seq![(rule_of_three_pattern(), "Rule-of-three triplet detected"@)],
        ),
{
    let mut pats: Vec<(String, String)> = Vec::new();
    pats.push(
        (
            "(?i)\\b(?:(?:very|quite|rather|truly|deeply|highly|incredibly|extremely)\\s+)?[A-Za-z]{2,},\\s+(?:(?:very|quite|rather|truly|deeply|highly|incredibly|extremely)\\s+)?[A-Za-z]{2,},\\s+(?:and|or)\\s+(?:(?:very|quite|rather|truly|deeply|highly|incredibly|extremely)\\s+)?[A-Za-z]{2,}\\b".to_owned(),
            "Rule-of-three triplet detected".to_owned(),
        ),
    );
    assert(pairs_view(pats@) =~= seq![(rule_of_three_pattern(), "Rule-of-three triplet detected"@)]);
    flags_for_patterns(rule_of_three_style_exec(), text, &pats)
}

// ---------------------------------------------------------------------------
// 7. Copulative inflation
// ---------------------------------------------------------------------------

/// The built-in copulative patterns.
pub open spec fn default_copulative_patterns() -> Seq<(Seq<char>, Seq<char>)> {
    seq![
        ("(?i)\\bserves as\\b"@, "serves as"@),
        ("(?i)\\bstand(?:s|ing)?\\s+as\\b"@, "stands as"@),
        ("(?i)\\bfunction(?:s|ing)?\\s+as\\b"@, "functions as"@),
        ("(?i)\\bholds? the distinction of being\\b"@, "holds the distinction of being"@),
        ("(?i)\\bacts? as\\b"@, "acts as"@),
    ]
}

fn default_copulative_pattern_list() -> (v: Vec<(String, String)>)
    ensures
        pairs_view(v@) == default_copulative_patterns(),
{
    let mut v: Vec<(String, String)> = Vec::new();
    v.push(("(?i)\\bserves as\\b".to_owned(), "serves as".to_owned()));
    v.push(("(?i)\\bstand(?:s|ing)?\\s+as\\b".to_owned(), "stands as".to_owned()));
    v.push(("(?i)\\bfunction(?:s|ing)?\\s+as\\b".to_owned(), "functions as".to_owned()));
    v.push(("(?i)\\bholds? the distinction of being\\b".to_owned(), "holds the distinction of being".to_owned()));
    v.push(("(?i)\\bacts? as\\b".to_owned(), "acts as".to_owned()));
    assert(pairs_view(v@) =~= default_copulative_patterns());
    v
}

pub open spec fn copulative_style_default() -> FlagStyle {
    FlagStyle {
        check_name: "copulative_inflation",
        warning: false,
        desc_prefix: "Copulative inflation \"",
        desc_suffix: "\" — prefer \"is/are\"",
        loc_prefix: "...\"",
        loc_suffix: "\"...",
        quote: Quote::Around(15),
        deterrent: true,
    }
}

fn copulative_style_exec() -> (s: FlagStyle)
    ensures
        s == copulative_style_default(),
{
    FlagStyle {
        check_name: "copulative_inflation",
        warning: false,
        desc_prefix: "Copulative inflation \"",
        desc_suffix: "\" — prefer \"is/are\"",
        loc_prefix: "...\"",
        loc_suffix: "\"...",
        quote: Quote::Around(15),
        deterrent: true,
    }
}

/// The copulative style; `deterrent` skips the "acts as a deterrent" idiom.
pub open spec fn copulative_style(deterrent: bool) -> FlagStyle {
    FlagStyle { deterrent, ..copulative_style_default() }
}

/// The copulative inflation flags: the custom `patterns` when given (every match
/// flagged), else the built-in ones (skipping "acts as" when "acts as a
/// deterrent" follows).
pub open spec fn copulative_flags(t: Seq<char>, params: Option<TomlTable>) -> Seq<FlagView> {
    match custom_patterns(params) {
        Some(ps) => patterns_flags(copulative_style(false), t, ps),
        None => patterns_flags(copulative_style(true), t, default_copulative_patterns()),
    }
}

pub fn check_copulative_inflation(text: &str, params: Option<&TomlTable>) -> (r: Vec<SlopFlag>)
    ensures
        flags_view(r@) == copulative_flags(text@, opt_table(params)),
{
    let base = copulative_style_exec();
    match custom_pattern_list(params) {
        Some(pats) => {
            let style = FlagStyle { deterrent: false, ..base };
            flags_for_patterns(style, text, &pats)
        },
        None => {
            let pats = default_copulative_pattern_list();
            flags_for_patterns(base, text, &pats)
        },
    }
}

// ---------------------------------------------------------------------------
// 9. Patterned negation
// ---------------------------------------------------------------------------

/// The built-in patterned negations.
pub open spec fn default_negation_patterns() -> Seq<(Seq<char>, Seq<char>)> {
    seq![
        ("(?is)It'?s?\\s+not\\b[^.!?]{1,80}[.!?]\\s+It'?s?\\b"@, "It's not X. It's Y."@),
        ("(?i)\\bNot\\s+\\w[\\w\\s]{1,40},\\s+but\\b"@, "Not X, but Y"@),
        ("(?is)\\b(?:This|That|These|Those)\\s+isn'?t\\s+about\\b[^.!?]{1,80}[.!?]\\s+It'?s?\\s+about\\b"@, "This isn't about X. It's about Y."@),
    ]
}

fn default_negation_pattern_list() -> (v: Vec<(String, String)>)
    ensures
        pairs_view(v@) == default_negation_patterns(),
{
    let mut v: Vec<(String, String)> = Vec::new();
    v.push(("(?is)It'?s?\\s+not\\b[^.!?]{1,80}[.!?]\\s+It'?s?\\b".to_owned(), "It's not X. It's Y.".to_owned()));
    v.push(("(?i)\\bNot\\s+\\w[\\w\\s]{1,40},\\s+but\\b".to_owned(), "Not X, but Y".to_owned()));
    v.push(("(?is)\\b(?:This|That|These|Those)\\s+isn'?t\\s+about\\b[^.!?]{1,80}[.!?]\\s+It'?s?\\s+about\\b".to_owned(), "This isn't about X. It's about Y.".to_owned()));
    assert(pairs_view(v@) =~= default_negation_patterns());
    v
}

pub open spec fn negation_style() -> FlagStyle {
    FlagStyle {
        check_name: "patterned_negation",
        warning: false,
        desc_prefix: "Patterned negation \"",
        desc_suffix: "\" detected",
        loc_prefix: "\"",
        loc_suffix: "\"",
        quote: Quote::Head(true),
        deterrent: false,
    }
}

fn negation_style_exec() -> (s: FlagStyle)
    ensures
        s == negation_style(),
{
    FlagStyle {
        check_name: "patterned_negation",
        warning: false,
        desc_prefix: "Patterned negation \"",
        desc_suffix: "\" detected",
        loc_prefix: "\"",
        loc_suffix: "\"",
        quote: Quote::Head(true),
        deterrent: false,
    }
}

/// The patterned negation flags: custom `patterns` when given, else the built-in ones.
pub open spec fn negation_flags(t: Seq<char>, params: Option<TomlTable>) -> Seq<FlagView> {
    match custom_patterns(params) {
        Some(ps) => patterns_flags(negation_style(), t, ps),
        None => patterns_flags(negation_style(), t, default_negation_patterns()),
    }
}

pub fn check_patterned_negation(text: &str, params: Option<&TomlTable>) -> (r: Vec<SlopFlag>)
    ensures
        flags_view(r@) == negation_flags(text@, opt_table(params)),
{
    let style = negation_style_exec();
    let pats = match custom_pattern_list(params) {
        Some(p) => p,
        None => default_negation_pattern_list(),
    };
    flags_for_patterns(style, text, &pats)
}

// ---------------------------------------------------------------------------
// Paragraph openers (transition openers, formulaic conclusions)
// ---------------------------------------------------------------------------

/// The escaped alternatives `a|b|...` of a phrase list.
pub open spec fn alternation(xs: Seq<Seq<char>>) -> Seq<char> {
    join(xs.map_values(|x: Seq<char>| escaped(x)), "|"@)
}

/// The escaped phrases joined by `|`.
fn alternation_exec(xs: &Vec<String>) -> (r: String)
    ensures
        r@ == alternation(strings_view(xs@)),
{
    let ghost es = strings_view(xs@).map_values(|x: Seq<char>| escaped(x));
    let mut r = String::new();
    let mut i: usize = 0;
    while i < xs.len()
        invariant
            i <= xs.len(),
            es == strings_view(xs@).map_values(|x: Seq<char>| escaped(x)),
            r@ == join(es.take(i as int), "|"@),
        decreases xs.len() - i,
    {
        let e = escape(xs[i].as_str());
        assert(es.take(i + 1).drop_last() =~= es.take(i as int));
        if i > 0 {
            r.append("|");
        }
        r.append(e.as_str());
        i += 1;
        proof {
            if i == 1 {
                assert(es.take(1) =~= seq![es[0]]);
                assert(r@ =~= join(es.take(i as int), "|"@)) by {
                    reveal_strlit("");
                }
            }
        }
    }
    assert(es.take(xs.len() as int) =~= es);
    r
}

/// The paragraph-opener flags for the given captures: for each whose group 1
/// took part, the group-1 text in the description and the first 60 characters of
/// the trimmed whole match in the location.
pub open spec fn opener_flags(
    check_name: Seq<char>,
    desc_prefix: Seq<char>,
    t: Seq<char>,
    caps: Seq<((usize, usize), Option<(usize, usize)>)>,
) -> Seq<FlagView>
    decreases caps.len(),
{
    if caps.len() == 0 {
        Seq::empty()
    } else {
        let rest = opener_flags(check_name, desc_prefix, t, caps.drop_last());
        let c = caps.last();
        match c.1 {
            Some(g) => rest.push(
                flag(
                    check_name,
                    desc_prefix + span_text(t, g) + "\""@,
                    "\""@ + prefix(trim(span_text(t, c.0)), 60) + "\""@,
                    warning_sev(),
                ),
            ),
            None => rest,
        }
    }
}

/// Every capture whose phrase group took part raises its own flag, in order:
/// the flags are one per such capture (so several paragraphs that each open
/// with a banned phrase give one flag each), the k-th naming the phrase of the
/// k-th such capture and quoting the start of its match.
pub proof fn law_opener_flag_per_capture(
    check_name: Seq<char>,
    desc_prefix: Seq<char>,
    t: Seq<char>,
    caps: Seq<((usize, usize), Option<(usize, usize)>)>,
)
    ensures
        ({
            let g = caps.filter(|c: ((usize, usize), Option<(usize, usize)>)| c.1 is Some);
            let r = opener_flags(check_name, desc_prefix, t, caps);
            &&& r.len() == g.len()
            &&& forall|k: int|
                0 <= k < g.len() ==> #[trigger] r[k] == flag(
                    check_name,
                    desc_prefix + span_text(t, g[k].1.unwrap()) + "\""@,
                    "\""@ + prefix(trim(span_text(t, g[k].0)), 60) + "\""@,
                    warning_sev(),
                )
        }),
    decreases caps.len(),
{
    let pred = |c: ((usize, usize), Option<(usize, usize)>)| c.1 is Some;
    reveal(Seq::filter);
    if caps.len() > 0 {
        law_opener_flag_per_capture(check_name, desc_prefix, t, caps.drop_last());
        assert(caps.filter(pred) == if pred(caps.last()) {
            caps.drop_last().filter(pred).push(caps.last())
        } else {
            caps.drop_last().filter(pred)
        });
    }
}

fn opener_flags_exec(check_name: &str, desc_prefix: &str, text: &str, pattern: &str) -> (r: Vec<
    SlopFlag,
>)
    requires
        regex_compiles(pattern@),
    ensures
        flags_view(r@) == opener_flags(
            check_name@,
            desc_prefix@,
            text@,
            regex_capture_spans(pattern@, text@),
        ),
{
    let caps = match capture_spans(pattern, text) {
        Some(c) => c,
        None => { return Vec::new(); },
    };
    let mut flags: Vec<SlopFlag> = Vec::new();
    let mut i: usize = 0;
    while i < caps.len()
        invariant
            i <= caps.len(),
            caps@ == regex_capture_spans(pattern@, text@),
            captures_valid(text@, caps@),
            flags_view(flags@) == opener_flags(check_name@, desc_prefix@, text@, caps@.take(i as int)),
        decreases caps.len() - i,
    {
        assert(caps@.take(i + 1).drop_last() =~= caps@.take(i as int));
        let c = caps[i];
        assert(valid_range(text@, caps@[i as int].0.0 as int, caps@[i as int].0.1 as int));
        if let Some(g) = c.1 {
            let m = slice_bytes(text, g.0, g.1);
            let desc = concat3(desc_prefix, m, "\"");
            let whole = slice_bytes(text, c.0.0, c.0.1);
            let wc = chars_of(whole);
            let tw = trim_chars(&wc);
            let head = prefix_chars(&tw, 60);
            let mut loc = String::from_str("\"");
            push_chars(&mut loc, &head);
            loc.append("\"");
            flags.push(SlopFlag::warning(check_name, desc.as_str(), loc.as_str()));
        }
        i += 1;
        assert(flags_view(flags@) =~= opener_flags(check_name@, desc_prefix@, text@, caps@.take(i as int)));
    }
    assert(caps@.take(caps.len() as int) =~= caps@);
    flags
}

/// The phrases a list parameter gives (its string elements), else the defaults.
pub open spec fn phrase_list(params: Option<TomlTable>, key: Seq<char>, defaults: Seq<Seq<char>>) -> Seq<Seq<char>> {
    match as_array(param(params, key)) {
        Some(a) => strings_of(a),
        None => defaults,
    }
}

fn phrase_list_exec(params: Option<&TomlTable>, key: &str, defaults: Vec<String>) -> (r: Vec<String>)
    ensures
        strings_view(r@) == phrase_list(opt_table(params), key@, strings_view(defaults@)),
{
    let arr = match param_value(params, key) {
        Some(v) => v.as_array(),
        None => None,
    };
    match arr {
        Some(a) => array_strings(a),
        None => defaults,
    }
}

// ---------------------------------------------------------------------------
// 5. Transition openers
// ---------------------------------------------------------------------------

/// The built-in banned paragraph openers.
pub open spec fn default_transition_openers() -> Seq<Seq<char>> {
    seq!["Moreover"@, "Furthermore"@, "Additionally"@, "Consequently"@, "As a result"@, "In addition"@, "On the other hand"@]
}

fn default_transition_opener_list() -> (v: Vec<String>)
    ensures
        strings_view(v@) == default_transition_openers(),
{
    let mut v: Vec<String> = Vec::new();
    v.push("Moreover".to_owned());
    v.push("Furthermore".to_owned());
    v.push("Additionally".to_owned());
    v.push("Consequently".to_owned());
    v.push("As a result".to_owned());
    v.push("In addition".to_owned());
    v.push("On the other hand".to_owned());
    assert(strings_view(v@) =~= default_transition_openers());
    v
}

/// The banned openers: the `banned` parameter when it is an array, else the defaults.
pub open spec fn banned_openers(params: Option<TomlTable>) -> Seq<Seq<char>> {
    phrase_list(params, "banned"@, default_transition_openers())
}

/// A banned phrase at the start of the text or after a blank line.
pub open spec fn transition_pattern(banned: Seq<Seq<char>>) -> Seq<char> {
    "(?i)(?:^|\\n\\n)[ \\t]*("@ + alternation(banned) + ")\\b"@
}

pub open spec fn transition_flags(t: Seq<char>, params: Option<TomlTable>) -> Seq<FlagView> {
    opener_flags(
        "transition_opener"@,
        "Paragraph opens with banned transition \""@,
        t,
        regex_capture_spans(transition_pattern(banned_openers(params)), t),
    )
}

/// Whether the opener pattern of these parameters compiles.
pub open spec fn transition_pattern_ok(params: Option<TomlTable>) -> bool {
    regex_compiles(transition_pattern(banned_openers(params)))
}

/// The transition-opener pattern for the given parameters.
pub fn transition_pattern_of(params: Option<&TomlTable>) -> (r: String)
    ensures
        r@ == transition_pattern(banned_openers(opt_table(params))),
{
    let banned = phrase_list_exec(params, "banned", default_transition_opener_list());
    let alt = alternation_exec(&banned);
    concat3("(?i)(?:^|\\n\\n)[ \\t]*(", alt.as_str(), ")\\b")
}

/// A warning for each paragraph that opens with a banned transition.
pub fn check_transition_openers(text: &str, params: Option<&TomlTable>) -> (r: Vec<SlopFlag>)
    requires
        transition_pattern_ok(opt_table(params)),
    ensures
        flags_view(r@) == transition_flags(text@, opt_table(params)),
{
    let pattern = transition_pattern_of(params);
    opener_flags_exec(
        "transition_opener",
        "Paragraph opens with banned transition \"",
        text,
        pattern.as_str(),
    )
}

/// The transition check raises one "transition_opener" warning for each
/// capture of its opener pattern in which the phrase group took part.
pub proof fn law_transition_flag_count(t: Seq<char>, params: Option<TomlTable>)
    ensures
        transition_flags(t, params).len() == regex_capture_spans(
            transition_pattern(banned_openers(params)),
            t,
        ).filter(|c: ((usize, usize), Option<(usize, usize)>)| c.1 is Some).len(),
        forall|k: int|
            0 <= k < transition_flags(t, params).len() ==> {
                &&& (#[trigger] transition_flags(t, params)[k]).check_name == "transition_opener"@
                &&& transition_flags(t, params)[k].severity == "warning"@
            },
{
    law_opener_flag_per_capture(
        "transition_opener"@,
        "Paragraph opens with banned transition \""@,
        t,
        regex_capture_spans(transition_pattern(banned_openers(params)), t),
    );
}

// ---------------------------------------------------------------------------
// 8. Formulaic conclusion
// ---------------------------------------------------------------------------

/// The built-in formulaic conclusion openers.
pub open spec fn default_conclusion_openers() -> Seq<Seq<char>> {
    seq!["In summary"@, "In conclusion"@, "To summarize"@, "To conclude"@, "Overall"@, "Ultimately"@, "In closing"@, "Challenges and Future"@, "Looking ahead"@, "Moving forward"@, "In the end"@]
}

fn default_conclusion_opener_list() -> (v: Vec<String>)
    ensures
        strings_view(v@) == default_conclusion_openers(),
{
    let mut v: Vec<String> = Vec::new();
    v.push("In summary".to_owned());
    v.push("In conclusion".to_owned());
    v.push("To summarize".to_owned());
    v.push("To conclude".to_owned());
    v.push("Overall".to_owned());
    v.push("Ultimately".to_owned());
    v.push("In closing".to_owned());
    v.push("Challenges and Future".to_owned());
    v.push("Looking ahead".to_owned());
    v.push("Moving forward".to_owned());
    v.push("In the end".to_owned());
    assert(strings_view(v@) =~= default_conclusion_openers());
    v
}

/// The conclusion openers: the `openers` parameter when it is an array, else the defaults.
pub open spec fn conclusion_openers(params: Option<TomlTable>) -> Seq<Seq<char>> {
    phrase_list(params, "openers"@, default_conclusion_openers())
}

/// An opener at the start of the text or of a line.
pub open spec fn conclusion_pattern(openers: Seq<Seq<char>>) -> Seq<char> {
    "(?i)(?:^|\\n+)\\s*("@ + alternation(openers) + ")\\b"@
}

pub open spec fn conclusion_flags(t: Seq<char>, params: Option<TomlTable>) -> Seq<FlagView> {
    opener_flags(
        "formulaic_conclusion"@,
        "Formulaic conclusion opener \""@,
        t,
        regex_capture_spans(conclusion_pattern(conclusion_openers(params)), t),
    )
}

/// Whether the conclusion pattern of these parameters compiles.
pub open spec fn conclusion_pattern_ok(params: Option<TomlTable>) -> bool {
    regex_compiles(conclusion_pattern(conclusion_openers(params)))
}

/// The formulaic-conclusion pattern for the given parameters.
pub fn conclusion_pattern_of(params: Option<&TomlTable>) -> (r: String)
    ensures
        r@ == conclusion_pattern(conclusion_openers(opt_table(params))),
{
    let openers = phrase_list_exec(params, "openers", default_conclusion_opener_list());
    let alt = alternation_exec(&openers);
    concat3("(?i)(?:^|\\n+)\\s*(", alt.as_str(), ")\\b")
}

/// The conclusion check raises one "formulaic_conclusion" warning for each
/// capture of its opener pattern in which the phrase group took part.
pub proof fn law_conclusion_flag_count(t: Seq<char>, params: Option<TomlTable>)
    ensures
        conclusion_flags(t, params).len() == regex_capture_spans(
            conclusion_pattern(conclusion_openers(params)),
            t,
        ).filter(|c: ((usize, usize), Option<(usize, usize)>)| c.1 is Some).len(),
        forall|k: int|
            0 <= k < conclusion_flags(t, params).len() ==> {
                &&& (#[trigger] conclusion_flags(t, params)[k]).check_name == "formulaic_conclusion"@
                &&& conclusion_flags(t, params)[k].severity == "warning"@
            },
{
    law_opener_flag_per_capture(
        "formulaic_conclusion"@,
        "Formulaic conclusion opener \""@,
        t,
        regex_capture_spans(conclusion_pattern(conclusion_openers(params)), t),
    );
}

/// A warning for each line that opens with a formulaic conclusion.
pub fn check_formulaic_conclusion(text: &str, params: Option<&TomlTable>) -> (r: Vec<SlopFlag>)
    requires
        conclusion_pattern_ok(opt_table(params)),
    ensures
        flags_view(r@) == conclusion_flags(text@, opt_table(params)),
{
    let pattern = conclusion_pattern_of(params);
    opener_flags_exec(
        "formulaic_conclusion",
        "Formulaic conclusion opener \"",
        text,
        pattern.as_str(),
    )
}

// ---------------------------------------------------------------------------
// Sentences and paragraphs
// ---------------------------------------------------------------------------

/// `Regex::replace_all` when the pattern compiles, else the text unchanged.
pub open spec fn replaced(pattern: Seq<char>, t: Seq<char>, replacement: Seq<char>) -> Seq<char> {
    if regex_compiles(pattern) {
        regex_replace_all(pattern, t, replacement)
    } else {
        t
    }
}

fn replace_or_keep(pattern: &str, text: String, replacement: &str) -> (r: String)
    ensures
        r@ == replaced(pattern@, text@, replacement@),
{
    match replace_all(pattern, text.as_str(), replacement) {
        Some(s) => s,
        None => text,
    }
}

/// The pieces of `s` between occurrences of `sep` (`str::split`).
pub open spec fn split_on(s: Seq<char>, sep: char) -> Seq<Seq<char>>
    decreases s.len(),
{
    if s.len() == 0 {
        seq![Seq::empty()]
    } else {
        let p = split_on(s.drop_last(), sep);
        if s.last() == sep {
            p.push(Seq::empty())
        } else {
            p.update(p.len() - 1, p.last().push(s.last()))
        }
    }
}

proof fn lemma_split_nonempty(s: Seq<char>, sep: char)
    ensures
        split_on(s, sep).len() >= 1,
    decreases s.len(),
{
    if s.len() > 0 {
        lemma_split_nonempty(s.drop_last(), sep);
    }
}

/// The trimmed pieces that are not empty.
pub open spec fn nonempty_trimmed(ps: Seq<Seq<char>>) -> Seq<Seq<char>>
    decreases ps.len(),
{
    if ps.len() == 0 {
        Seq::empty()
    } else {
        let rest = nonempty_trimmed(ps.drop_last());
        if trim(ps.last()).len() > 0 {
            rest.push(trim(ps.last()))
        } else {
            rest
        }
    }
}

/// Appends `trim(cur)` to `out` when it is not empty.
fn push_trimmed(out: &mut Vec<String>, cur: &Vec<char>)
    ensures
        strings_view(final(out)@) == if trim(cur@).len() > 0 {
            strings_view(old(out)@).push(trim(cur@))
        } else {
            strings_view(old(out)@)
        },
{
    let t = trim_chars(cur);
    if t.len() > 0 {
        out.push(string_of(&t));
    }
    assert(strings_view(out@) =~= if trim(cur@).len() > 0 {
        strings_view(old(out)@).push(trim(cur@))
    } else {
        strings_view(old(out)@)
    });
}

/// The trimmed, non-empty pieces of `s` between occurrences of `sep`.
fn split_trimmed(s: &str, sep: char) -> (r: Vec<String>)
    ensures
        strings_view(r@) == nonempty_trimmed(split_on(s@, sep)),
{
    let v = chars_of(s);
    let mut out: Vec<String> = Vec::new();
    let mut cur: Vec<char> = Vec::new();
    let mut i: usize = 0;
    while i < v.len()
        invariant
            i <= v.len(),
            split_on(v@.take(i as int), sep).len() >= 1,
            cur@ == split_on(v@.take(i as int), sep).last(),
            strings_view(out@) == nonempty_trimmed(split_on(v@.take(i as int), sep).drop_last()),
        decreases v.len() - i,
    {
        let ghost ps = split_on(v@.take(i as int), sep);
        assert(v@.take(i + 1).drop_last() =~= v@.take(i as int));
        assert(v@.take(i + 1).last() == v@[i as int]);
        if v[i] == sep {
            push_trimmed(&mut out, &cur);
            cur = Vec::new();
            proof {
                let ps2 = split_on(v@.take(i + 1), sep);
                assert(ps2 == ps.push(Seq::empty()));
                assert(ps2.drop_last() =~= ps);
                assert(ps.drop_last().push(ps.last()) =~= ps);
                assert(cur@ =~= ps2.last());
            }
        } else {
            cur.push(v[i]);
            proof {
                let ps2 = split_on(v@.take(i + 1), sep);
                assert(ps2.drop_last() =~= ps.drop_last());
            }
        }
        i += 1;
        proof {
            lemma_split_nonempty(v@.take(i as int), sep);
        }
    }
    assert(v@.take(v.len() as int) =~= v@);
    let ghost ps = split_on(v@, sep);
    push_trimmed(&mut out, &cur);
    assert(ps.drop_last().push(ps.last()) =~= ps);
    out
}

pub open spec fn whitespace_run_pattern() -> Seq<char> {
    "\\s+"@
}

pub open spec fn sentence_boundary_pattern() -> Seq<char> {
    "([.!?])\\s+([\"'(A-Z])"@
}

/// The sentences of `t`: whitespace runs collapsed to single spaces in the
/// trimmed text, a cut after `.`, `!` or `?` followed by whitespace and an
/// uppercase letter, quote or parenthesis; the trimmed non-empty pieces.
pub open spec fn sentences_of(t: Seq<char>) -> Seq<Seq<char>> {
    let flat = replaced(whitespace_run_pattern(), trim(t), " "@);
    let marked = replaced(sentence_boundary_pattern(), flat, "$1\0$2"@);
    nonempty_trimmed(split_on(marked, '\0'))
}

/// The sentences of `text` (see [`sentences_of`]).
pub fn sentences(text: &str) -> (r: Vec<String>)
    ensures
        strings_view(r@) == sentences_of(text@),
{
    let trimmed = trim_str(text);
    let flat = replace_or_keep("\\s+", trimmed, " ");
    let marked = replace_or_keep("([.!?])\\s+([\"'(A-Z])", flat, "$1\0$2");
    split_trimmed(marked.as_str(), '\0')
}

pub open spec fn blank_line_pattern() -> Seq<char> {
    "\\n\\s*\\n"@
}

/// The paragraphs of `t`: the trimmed, non-empty pieces between blank lines.
pub open spec fn paragraphs_of(t: Seq<char>) -> Seq<Seq<char>> {
    nonempty_trimmed(split_on(replaced(blank_line_pattern(), t, "\0"@), '\0'))
}

pub fn paragraphs(text: &str) -> (r: Vec<String>)
    ensures
        strings_view(r@) == paragraphs_of(text@),
{
    let marked = replace_or_keep("\\n\\s*\\n", String::from_str(text), "\0");
    split_trimmed(marked.as_str(), '\0')
}

/// Splitting at a separator that does not occur leaves the text whole.
proof fn lemma_split_absent(s: Seq<char>, sep: char)
    requires
        !s.contains(sep),
    ensures
        split_on(s, sep) == seq![s],
    decreases s.len(),
{
    if s.len() == 0 {
        assert(s =~= Seq::<char>::empty());
        assert(split_on(s, sep) =~= seq![s]);
    } else {
        let p = s.drop_last();
        assert(!p.contains(sep)) by {
            if p.contains(sep) {
                let i = choose|i: int| 0 <= i < p.len() && p[i] == sep;
                assert(s[i] == sep);
            }
        }
        lemma_split_absent(p, sep);
        assert(s.last() != sep) by {
            assert(s[s.len() - 1] == s.last());
        }
        let q = split_on(p, sep);
        assert(q.len() == 1 && q.last() == p);
        assert(p.push(s.last()) =~= s);
        assert(split_on(s, sep) == q.update(0, p.push(s.last())));
        assert(split_on(s, sep) =~= seq![s]);
    }
}

/// A paragraph is what lies between blank lines: a text in which the
/// blank-line pattern marks nothing (and that holds no NUL) is one paragraph,
/// its trimmed self, or none when it is blank. Line breaks alone do not split.
pub proof fn law_no_blank_line_one_paragraph(t: Seq<char>)
    requires
        replaced(blank_line_pattern(), t, "\0"@) == t,
        !t.contains('\0'),
    ensures
        paragraphs_of(t) == if trim(t).len() > 0 {
            seq![trim(t)]
        } else {
            Seq::<Seq<char>>::empty()
        },
{
    lemma_split_absent(t, '\0');
    let ps = seq![t];
    assert(ps.drop_last() =~= Seq::<Seq<char>>::empty());
    assert(nonempty_trimmed(ps.drop_last()) == Seq::<Seq<char>>::empty());
    assert(ps.last() == t);
    if trim(t).len() > 0 {
        assert(nonempty_trimmed(ps) =~= seq![trim(t)]);
    }
}

// ---------------------------------------------------------------------------
// Uniformity (burstiness, paragraph uniformity)
// ---------------------------------------------------------------------------

/// How a uniformity flag reads: `head`, the standard deviation, " < ", the
/// threshold, `mid`, the mean, `unit`, the count, `tail`.
pub struct UniformityText {
    pub check_name: &'static str,
    pub head: &'static str,
    pub mid: &'static str,
    pub unit: &'static str,
    pub tail: &'static str,
}

/// The standard deviation as printed with one decimal: "-0.0" for no values,
/// "NaN" for one.
pub open spec fn sd_text(l: Seq<usize>) -> Seq<char> {
    if l.len() == 0 {
        "-0.0"@
    } else if l.len() == 1 {
        "NaN"@
    } else {
        render_tenths(sd_tenths(spread(l), l.len() * (l.len() - 1)) as nat)
    }
}

/// The mean as printed with one decimal ("NaN" for no values).
pub open spec fn mean_text(l: Seq<usize>) -> Seq<char> {
    if l.len() == 0 {
        "NaN"@
    } else {
        render_tenths(f64_ratio_tenths(sum(l), l.len()))
    }
}

/// One warning when there are at least `min` values, their sums fit 128-bit
/// arithmetic, and their sample standard deviation is not at least `threshold`.
pub open spec fn uniformity_flags(
    words: UniformityText,
    l: Seq<usize>,
    min: usize,
    threshold: FloatValue,
) -> Seq<FlagView> {
    if l.len() < min || !sample_fits(l) || !spread_below(l, threshold) {
        Seq::empty()
    } else {
        seq![
            flag(
                words.check_name@,
                words.head@ + sd_text(l) + " < "@ + render_float(threshold) + words.mid@ + mean_text(l)
                    + words.unit@ + decimal(l.len() as nat) + words.tail@,
                ""@,
                warning_sev(),
            ),
        ]
    }
}

fn uniformity_flags_exec(words: &UniformityText, l: &Vec<usize>, min: usize, threshold: FloatValue) -> (r: Vec<SlopFlag>)
    ensures
        flags_view(r@) == uniformity_flags(*words, l@, min, threshold),
{
    let mut r: Vec<SlopFlag> = Vec::new();
    if l.len() < min {
        return r;
    }
    let (w, q) = match sample_sums(l) {
        Some(p) => p,
        None => { return r; },
    };
    if !spread_below_exec(l, w, q, threshold) {
        return r;
    }
    let n = l.len();
    proof {
        lemma_sums(l@);
    }
    let mut desc = String::from_str(words.head);
    if n == 0 {
        desc.append("-0.0");
    } else if n == 1 {
        desc.append("NaN");
    } else {
        let nn = n as u128;
        assert(nn * q * 1_000_000 <= u128::MAX);
        assert(w * w <= nn * q);
        let s = nn * q - w * w;
        assert(400 * s <= u128::MAX) by (nonlinear_arith)
            requires
                s <= nn * q,
                nn * q * 1_000_000 <= u128::MAX,
        ;
        assert(nn * (nn - 1) <= u128::MAX) by (nonlinear_arith)
            requires
                1 < nn <= 0xFFFF_FFFF_FFFF_FFFFu128,
        ;
        assert(nn * (nn - 1) >= 1) by (nonlinear_arith)
            requires
                nn > 1,
        ;
        let k = round_tenths_sqrt(s, nn * (nn - 1));
        push_tenths(&mut desc, k);
    }
    desc.append(" < ");
    push_float(&mut desc, threshold);
    desc.append(words.mid);
    if n == 0 {
        desc.append("NaN");
    } else {
        assert(w < (n as u128) * 0x20_0000_0000_0000) by (nonlinear_arith)
            requires
                w < 0x20_0000_0000_0000,
                n >= 1,
        ;
        let k = ratio_tenths(w, n as u128);
        push_tenths(&mut desc, k);
    }
    desc.append(words.unit);
    push_decimal(&mut desc, n as u128);
    desc.append(words.tail);
    r.push(SlopFlag::warning(words.check_name, desc.as_str(), ""));
    proof {
        reveal_strlit("NaN");
        reveal_strlit("-0.0");
    }
    assert(flags_view(r@) =~= uniformity_flags(*words, l@, min, threshold));
    r
}

/// The minimum count under `key` (as `usize`), else `default`.
pub open spec fn min_count(params: Option<TomlTable>, key: Seq<char>, default: usize) -> usize {
    match as_int(param(params, key)) {
        Some(i) => i as usize,
        None => default,
    }
}

/// The float threshold under `key`, else `default` (an integer value does not count).
pub open spec fn float_param(params: Option<TomlTable>, key: Seq<char>, default: FloatValue) -> FloatValue {
    match as_float(param(params, key)) {
        Some(f) => f,
        None => default,
    }
}

fn min_count_exec(params: Option<&TomlTable>, key: &str, default: usize) -> (r: usize)
    ensures
        r == min_count(opt_table(params), key@, default),
{
    match param_value(params, key) {
        Some(v) => match v.as_integer() {
            Some(i) => i as usize,
            None => default,
        },
        None => default,
    }
}

fn float_param_exec(params: Option<&TomlTable>, key: &str, default: FloatValue) -> (r: FloatValue)
    ensures
        r == float_param(opt_table(params), key@, default),
{
    match param_value(params, key) {
        Some(v) => match v.as_float() {
            Some(f) => f,
            None => default,
        },
        None => default,
    }
}

// ---------------------------------------------------------------------------
// 6. Burstiness
// ---------------------------------------------------------------------------

/// Word counts of the sentences.
pub open spec fn sentence_lengths(t: Seq<char>) -> Seq<usize> {
    sentences_of(t).map_values(|s: Seq<char>| word_count_spec(s) as usize)
}

pub open spec fn burstiness_text() -> UniformityText {
    UniformityText {
        check_name: "burstiness",
        head: "Sentence lengths too uniform (std dev ",
        mid: "). Mean sentence length: ",
        unit: " words across ",
        tail: " sentences.",
    }
}

/// A warning when at least `min_sentences` (default 4) sentences have word
/// counts whose standard deviation is below `std_dev_threshold` (default 5).
pub open spec fn burstiness_flags(t: Seq<char>, params: Option<TomlTable>) -> Seq<FlagView> {
    uniformity_flags(
        burstiness_text(),
        sentence_lengths(t),
        min_count(params, "min_sentences"@, 4),
        float_param(params, "std_dev_threshold"@, FloatValue::Finite(5000)),
    )
}

/// With the default parameters the burstiness check raises at most one
/// warning, named "burstiness", and raises it exactly when there are at least
/// four sentences and their word counts `L` have sample standard deviation
/// below 5: `sqrt(Σ (Lᵢ − mean)² / (n − 1)) < 5`, which multiplied out by
/// `n²(n − 1)` reads `Σ (n·Lᵢ − ΣL)² < 25·n²·(n − 1)`. (The sums must fit the
/// exact arithmetic: `sample_fits`.)
pub proof fn law_burstiness_default(t: Seq<char>)
    ensures
        burstiness_flags(t, None).len() <= 1,
        forall|i: int| 0 <= i < burstiness_flags(t, None).len() ==> {
            &&& (#[trigger] burstiness_flags(t, None)[i]).check_name == "burstiness"@
            &&& burstiness_flags(t, None)[i].severity == "warning"@
        },
        sample_fits(sentence_lengths(t)) ==> (burstiness_flags(t, None).len() == 1 <==> {
            let l = sentence_lengths(t);
            let n = l.len() as int;
            &&& n >= 4
            &&& scaled_sq_dev(l, n, sum(l) as int) < 25 * n * n * (n - 1)
        }),
{
    let l = sentence_lengths(t);
    let n = l.len() as int;
    lemma_scaled_sq_dev_spread(l);
    if n >= 4 {
        let sp = spread(l);
        assert((sp * 1_000_000 < 5000 * 5000 * (n * (n - 1))) == (n * sp < 25 * n * n * (n - 1)))
            by (nonlinear_arith)
            requires
                n >= 4,
        ;
    }
}

fn lengths_of(sents: &Vec<String>) -> (r: Vec<usize>)
    ensures
        r@ == strings_view(sents@).map_values(|s: Seq<char>| word_count_spec(s) as usize),
{
    let mut r: Vec<usize> = Vec::new();
    let mut i: usize = 0;
    while i < sents.len()
        invariant
            i <= sents.len(),
            r@ == strings_view(sents@).take(i as int).map_values(
                |s: Seq<char>| word_count_spec(s) as usize,
            ),
        decreases sents.len() - i,
    {
        r.push(word_count(sents[i].as_str()));
        i += 1;
        assert(r@ =~= strings_view(sents@).take(i as int).map_values(
            |s: Seq<char>| word_count_spec(s) as usize,
        ));
    }
    assert(strings_view(sents@).take(sents.len() as int) =~= strings_view(sents@));
    r
}

pub fn check_burstiness(text: &str, params: Option<&TomlTable>) -> (r: Vec<SlopFlag>)
    ensures
        flags_view(r@) == burstiness_flags(text@, opt_table(params)),
{
    let threshold = float_param_exec(params, "std_dev_threshold", FloatValue::Finite(5000));
    let min = min_count_exec(params, "min_sentences", 4);
    let sents = sentences(text);
    let lengths = lengths_of(&sents);
    let words = UniformityText {
        check_name: "burstiness",
        head: "Sentence lengths too uniform (std dev ",
        mid: "). Mean sentence length: ",
        unit: " words across ",
        tail: " sentences.",
    };
    uniformity_flags_exec(&words, &lengths, min, threshold)
}

// ---------------------------------------------------------------------------
// 12. Paragraph uniformity
// ---------------------------------------------------------------------------

/// Sentence counts of the paragraphs.
pub open spec fn paragraph_lengths(t: Seq<char>) -> Seq<usize> {
    paragraphs_of(t).map_values(|p: Seq<char>| sentences_of(p).len() as usize)
}

pub open spec fn paragraph_text() -> UniformityText {
    UniformityText {
        check_name: "paragraph_uniformity",
        head: "Paragraph lengths too uniform (std dev ",
        mid: "). Mean paragraph length: ",
        unit: " sentences across ",
        tail: " paragraphs.",
    }
}

/// A warning when at least `min_paragraphs` (default 4) paragraphs have sentence
/// counts whose standard deviation is below `std_dev_threshold` (default 1).
pub open spec fn paragraph_uniformity_flags(t: Seq<char>, params: Option<TomlTable>) -> Seq<FlagView> {
    uniformity_flags(
        paragraph_text(),
        paragraph_lengths(t),
        min_count(params, "min_paragraphs"@, 4),
        float_param(params, "std_dev_threshold"@, FloatValue::Finite(1000)),
    )
}

pub fn check_paragraph_uniformity(text: &str, params: Option<&TomlTable>) -> (r: Vec<SlopFlag>)
    ensures
        flags_view(r@) == paragraph_uniformity_flags(text@, opt_table(params)),
{
    let threshold = float_param_exec(params, "std_dev_threshold", FloatValue::Finite(1000));
    let min = min_count_exec(params, "min_paragraphs", 4);
    let paras = paragraphs(text);
    let mut lengths: Vec<usize> = Vec::new();
    let mut i: usize = 0;
    while i < paras.len()
        invariant
            i <= paras.len(),
            lengths@ == strings_view(paras@).take(i as int).map_values(
                |p: Seq<char>| sentences_of(p).len() as usize,
            ),
        decreases paras.len() - i,
    {
        let s = sentences(paras[i].as_str());
        lengths.push(s.len());
        i += 1;
        assert(lengths@ =~= strings_view(paras@).take(i as int).map_values(
            |p: Seq<char>| sentences_of(p).len() as usize,
        ));
    }
    assert(strings_view(paras@).take(paras.len() as int) =~= strings_view(paras@));
    let words = UniformityText {
        check_name: "paragraph_uniformity",
        head: "Paragraph lengths too uniform (std dev ",
        mid: "). Mean paragraph length: ",
        unit: " sentences across ",
        tail: " paragraphs.",
    };
    uniformity_flags_exec(&words, &lengths, min, threshold)
}

// ---------------------------------------------------------------------------
// Phrase checks (throat clearing, chatbot artifacts, emphasis crutches, vague
// attribution, wordiness)
// ---------------------------------------------------------------------------

/// The flags of a phrase check: the custom `patterns` when given, else the defaults.
pub open spec fn phrase_flags(
    style: FlagStyle,
    defaults: Seq<(Seq<char>, Seq<char>)>,
    t: Seq<char>,
    params: Option<TomlTable>,
) -> Seq<FlagView> {
    match custom_patterns(params) {
        Some(ps) => patterns_flags(style, t, ps),
        None => patterns_flags(style, t, defaults),
    }
}

/// The built-in throat clearing patterns.
pub open spec fn default_throat_clearing_patterns() -> Seq<(Seq<char>, Seq<char>)> {
    seq![
        ("(?i)\\b(?:but\\s+)?here['’]?s\\s+the\\s+thing\\b"@, "Here's the thing"@),
        ("(?i)\\blet\\s+me\\s+be\\s+clear\\b"@, "Let me be clear"@),
        ("(?i)\\bthe\\s+truth\\s+is\\b"@, "The truth is"@),
        ("(?i)\\bthe\\s+reality\\s+is\\b"@, "The reality is"@),
        ("(?i)\\blet['’]?s\\s+be\\s+honest\\b"@, "Let's be honest"@),
        ("(?i)\\bthink\\s+about\\s+it:"@, "Think about it:"@),
        ("(?i)\\band\\s+that['’]?s\\s+okay\\b"@, "And that's okay"@),
    ]
}

fn default_throat_clearing_pattern_list() -> (v: Vec<(String, String)>)
    ensures
        pairs_view(v@) == default_throat_clearing_patterns(),
{
    let mut v: Vec<(String, String)> = Vec::new();
    v.push(("(?i)\\b(?:but\\s+)?here['’]?s\\s+the\\s+thing\\b".to_owned(), "Here's the thing".to_owned()));
    v.push(("(?i)\\blet\\s+me\\s+be\\s+clear\\b".to_owned(), "Let me be clear".to_owned()));
    v.push(("(?i)\\bthe\\s+truth\\s+is\\b".to_owned(), "The truth is".to_owned()));
    v.push(("(?i)\\bthe\\s+reality\\s+is\\b".to_owned(), "The reality is".to_owned()));
    v.push(("(?i)\\blet['’]?s\\s+be\\s+honest\\b".to_owned(), "Let's be honest".to_owned()));
    v.push(("(?i)\\bthink\\s+about\\s+it:".to_owned(), "Think about it:".to_owned()));
    v.push(("(?i)\\band\\s+that['’]?s\\s+okay\\b".to_owned(), "And that's okay".to_owned()));
    assert(pairs_view(v@) =~= default_throat_clearing_patterns());
    v
}

pub open spec fn throat_clearing_style() -> FlagStyle {
    FlagStyle {
        check_name: "throat_clearing",
        warning: true,
        desc_prefix: "Throat-clearing phrase \"",
        desc_suffix: "\"",
        loc_prefix: "...\"",
        loc_suffix: "\"...",
        quote: Quote::Around(15),
        deterrent: false,
    }
}

fn throat_clearing_style_exec() -> (s: FlagStyle)
    ensures
        s == throat_clearing_style(),
{
    FlagStyle {
        check_name: "throat_clearing",
        warning: true,
        desc_prefix: "Throat-clearing phrase \"",
        desc_suffix: "\"",
        loc_prefix: "...\"",
        loc_suffix: "\"...",
        quote: Quote::Around(15),
        deterrent: false,
    }
}

pub fn check_throat_clearing(text: &str, params: Option<&TomlTable>) -> (r: Vec<SlopFlag>)
    ensures
        flags_view(r@) == phrase_flags(throat_clearing_style(), default_throat_clearing_patterns(), text@, opt_table(params)),
{
    let pats = match custom_pattern_list(params) {
        Some(p) => p,
        None => default_throat_clearing_pattern_list(),
    };
    flags_for_patterns(throat_clearing_style_exec(), text, &pats)
}

/// The built-in chatbot artifacts patterns.
pub open spec fn default_chatbot_artifacts_patterns() -> Seq<(Seq<char>, Seq<char>)> {
    seq![
        ("(?i)\\bgreat\\s+question!"@, "Great question!"@),
        ("(?i)\\bI['’]?d\\s+be\\s+happy\\s+to\\b"@, "I'd be happy to"@),
        ("(?i)\\bhope\\s+this\\s+helps\\b"@, "Hope this helps"@),
        ("(?i)\\bfeel\\s+free\\s+to\\b"@, "Feel free to"@),
        ("(?i)\\bcertainly!"@, "Certainly!"@),
        ("(?i)\\babsolutely!"@, "Absolutely!"@),
        ("(?i)\\bas\\s+an\\s+AI\\b"@, "As an AI"@),
        ("(?i)\\bas\\s+a\\s+language\\s+model\\b"@, "As a language model"@),
        ("(?i)\\blet\\s+me\\s+know\\s+if\\s+you\\b"@, "Let me know if you"@),
    ]
}

fn default_chatbot_artifacts_pattern_list() -> (v: Vec<(String, String)>)
    ensures
        pairs_view(v@) == default_chatbot_artifacts_patterns(),
{
    let mut v: Vec<(String, String)> = Vec::new();
    v.push(("(?i)\\bgreat\\s+question!".to_owned(), "Great question!".to_owned()));
    v.push(("(?i)\\bI['’]?d\\s+be\\s+happy\\s+to\\b".to_owned(), "I'd be happy to".to_owned()));
    v.push(("(?i)\\bhope\\s+this\\s+helps\\b".to_owned(), "Hope this helps".to_owned()));
    v.push(("(?i)\\bfeel\\s+free\\s+to\\b".to_owned(), "Feel free to".to_owned()));
    v.push(("(?i)\\bcertainly!".to_owned(), "Certainly!".to_owned()));
    v.push(("(?i)\\babsolutely!".to_owned(), "Absolutely!".to_owned()));
    v.push(("(?i)\\bas\\s+an\\s+AI\\b".to_owned(), "As an AI".to_owned()));
    v.push(("(?i)\\bas\\s+a\\s+language\\s+model\\b".to_owned(), "As a language model".to_owned()));
    v.push(("(?i)\\blet\\s+me\\s+know\\s+if\\s+you\\b".to_owned(), "Let me know if you".to_owned()));
    assert(pairs_view(v@) =~= default_chatbot_artifacts_patterns());
    v
}

pub open spec fn chatbot_artifacts_style() -> FlagStyle {
    FlagStyle {
        check_name: "chatbot_artifacts",
        warning: true,
        desc_prefix: "Chatbot artifact \"",
        desc_suffix: "\"",
        loc_prefix: "...\"",
        loc_suffix: "\"...",
        quote: Quote::Around(15),
        deterrent: false,
    }
}

fn chatbot_artifacts_style_exec() -> (s: FlagStyle)
    ensures
        s == chatbot_artifacts_style(),
{
    FlagStyle {
        check_name: "chatbot_artifacts",
        warning: true,
        desc_prefix: "Chatbot artifact \"",
        desc_suffix: "\"",
        loc_prefix: "...\"",
        loc_suffix: "\"...",
        quote: Quote::Around(15),
        deterrent: false,
    }
}

pub fn check_chatbot_artifacts(text: &str, params: Option<&TomlTable>) -> (r: Vec<SlopFlag>)
    ensures
        flags_view(r@) == phrase_flags(chatbot_artifacts_style(), default_chatbot_artifacts_patterns(), text@, opt_table(params)),
{
    let pats = match custom_pattern_list(params) {
        Some(p) => p,
        None => default_chatbot_artifacts_pattern_list(),
    };
    flags_for_patterns(chatbot_artifacts_style_exec(), text, &pats)
}

/// The built-in emphasis crutches patterns.
pub open spec fn default_emphasis_crutches_patterns() -> Seq<(Seq<char>, Seq<char>)> {
    seq![
        ("(?i)\\bfull\\s+stop\\."@, "Full stop."@),
        ("(?:^|[.!?]\\s+)Period\\."@, "Period."@),
        ("(?i)\\blet\\s+that\\s+sink\\s+in\\b"@, "Let that sink in."@),
        ("(?i)\\bmake\\s+no\\s+mistake\\b"@, "Make no mistake"@),
        ("(?i)\\bthis\\s+matters\\s+because\\b"@, "This matters because"@),
        ("(?i)\\bthat['’]?s\\s+it\\.\\s+that['’]?s\\s+the\\b"@, "That's it. That's the"@),
    ]
}

fn default_emphasis_crutches_pattern_list() -> (v: Vec<(String, String)>)
    ensures
        pairs_view(v@) == default_emphasis_crutches_patterns(),
{
    let mut v: Vec<(String, String)> = Vec::new();
    v.push(("(?i)\\bfull\\s+stop\\.".to_owned(), "Full stop.".to_owned()));
    v.push(("(?:^|[.!?]\\s+)Period\\.".to_owned(), "Period.".to_owned()));
    v.push(("(?i)\\blet\\s+that\\s+sink\\s+in\\b".to_owned(), "Let that sink in.".to_owned()));
    v.push(("(?i)\\bmake\\s+no\\s+mistake\\b".to_owned(), "Make no mistake".to_owned()));
    v.push(("(?i)\\bthis\\s+matters\\s+because\\b".to_owned(), "This matters because".to_owned()));
    v.push(("(?i)\\bthat['’]?s\\s+it\\.\\s+that['’]?s\\s+the\\b".to_owned(), "That's it. That's the".to_owned()));
    assert(pairs_view(v@) =~= default_emphasis_crutches_patterns());
    v
}

pub open spec fn emphasis_crutches_style() -> FlagStyle {
    FlagStyle {
        check_name: "emphasis_crutches",
        warning: false,
        desc_prefix: "Emphasis crutch \"",
        desc_suffix: "\"",
        loc_prefix: "...\"",
        loc_suffix: "\"...",
        quote: Quote::Around(15),
        deterrent: false,
    }
}

fn emphasis_crutches_style_exec() -> (s: FlagStyle)
    ensures
        s == emphasis_crutches_style(),
{
    FlagStyle {
        check_name: "emphasis_crutches",
        warning: false,
        desc_prefix: "Emphasis crutch \"",
        desc_suffix: "\"",
        loc_prefix: "...\"",
        loc_suffix: "\"...",
        quote: Quote::Around(15),
        deterrent: false,
    }
}

pub fn check_emphasis_crutches(text: &str, params: Option<&TomlTable>) -> (r: Vec<SlopFlag>)
    ensures
        flags_view(r@) == phrase_flags(emphasis_crutches_style(), default_emphasis_crutches_patterns(), text@, opt_table(params)),
{
    let pats = match custom_pattern_list(params) {
        Some(p) => p,
        None => default_emphasis_crutches_pattern_list(),
    };
    flags_for_patterns(emphasis_crutches_style_exec(), text, &pats)
}

/// The built-in vague attribution patterns.
pub open spec fn default_vague_attribution_patterns() -> Seq<(Seq<char>, Seq<char>)> {
    seq![
        ("(?i)\\b(?:many|most|some)\\s+experts\\s+(?:agree|say|believe)\\b"@, "many experts agree"@),
        ("(?i)\\b(?:studies|research)\\s+(?:shows?|suggests?)\\b"@, "studies show"@),
        ("(?i)\\bsome\\s+critics\\s+argue\\b"@, "some critics argue"@),
        ("(?i)\\bindustry\\s+reports\\s+suggest\\b"@, "industry reports suggest"@),
        ("(?i)\\bit\\s+is\\s+widely\\s+believed\\b"@, "it is widely believed"@),
        ("(?i)\\bobservers\\s+have\\s+noted\\b"@, "observers have noted"@),
    ]
}

fn default_vague_attribution_pattern_list() -> (v: Vec<(String, String)>)
    ensures
        pairs_view(v@) == default_vague_attribution_patterns(),
{
    let mut v: Vec<(String, String)> = Vec::new();
    v.push(("(?i)\\b(?:many|most|some)\\s+experts\\s+(?:agree|say|believe)\\b".to_owned(), "many experts agree".to_owned()));
    v.push(("(?i)\\b(?:studies|research)\\s+(?:shows?|suggests?)\\b".to_owned(), "studies show".to_owned()));
    v.push(("(?i)\\bsome\\s+critics\\s+argue\\b".to_owned(), "some critics argue".to_owned()));
    v.push(("(?i)\\bindustry\\s+reports\\s+suggest\\b".to_owned(), "industry reports suggest".to_owned()));
    v.push(("(?i)\\bit\\s+is\\s+widely\\s+believed\\b".to_owned(), "it is widely believed".to_owned()));
    v.push(("(?i)\\bobservers\\s+have\\s+noted\\b".to_owned(), "observers have noted".to_owned()));
    assert(pairs_view(v@) =~= default_vague_attribution_patterns());
    v
}

pub open spec fn vague_attribution_style() -> FlagStyle {
    FlagStyle {
        check_name: "vague_attribution",
        warning: false,
        desc_prefix: "Vague attribution \"",
        desc_suffix: "\"",
        loc_prefix: "...\"",
        loc_suffix: "\"...",
        quote: Quote::Around(15),
        deterrent: false,
    }
}

fn vague_attribution_style_exec() -> (s: FlagStyle)
    ensures
        s == vague_attribution_style(),
{
    FlagStyle {
        check_name: "vague_attribution",
        warning: false,
        desc_prefix: "Vague attribution \"",
        desc_suffix: "\"",
        loc_prefix: "...\"",
        loc_suffix: "\"...",
        quote: Quote::Around(15),
        deterrent: false,
    }
}

pub fn check_vague_attribution(text: &str, params: Option<&TomlTable>) -> (r: Vec<SlopFlag>)
    ensures
        flags_view(r@) == phrase_flags(vague_attribution_style(), default_vague_attribution_patterns(), text@, opt_table(params)),
{
    let pats = match custom_pattern_list(params) {
        Some(p) => p,
        None => default_vague_attribution_pattern_list(),
    };
    flags_for_patterns(vague_attribution_style_exec(), text, &pats)
}

/// The built-in wordiness patterns.
pub open spec fn default_wordiness_patterns() -> Seq<(Seq<char>, Seq<char>)> {
    seq![
        ("(?i)\\bin\\s+order\\s+to\\b"@, "in order to"@),
        ("(?i)\\bdue\\s+to\\s+the\\s+fact\\s+that\\b"@, "due to the fact that"@),
        ("(?i)\\bat\\s+this\\s+point\\s+in\\s+time\\b"@, "at this point in time"@),
        ("(?i)\\bthe\\s+fact\\s+that\\b"@, "the fact that"@),
        ("(?i)\\bit\\s+should\\s+be\\s+noted\\s+that\\b"@, "it should be noted that"@),
    ]
}

fn default_wordiness_pattern_list() -> (v: Vec<(String, String)>)
    ensures
        pairs_view(v@) == default_wordiness_patterns(),
{
    let mut v: Vec<(String, String)> = Vec::new();
    v.push(("(?i)\\bin\\s+order\\s+to\\b".to_owned(), "in order to".to_owned()));
    v.push(("(?i)\\bdue\\s+to\\s+the\\s+fact\\s+that\\b".to_owned(), "due to the fact that".to_owned()));
    v.push(("(?i)\\bat\\s+this\\s+point\\s+in\\s+time\\b".to_owned(), "at this point in time".to_owned()));
    v.push(("(?i)\\bthe\\s+fact\\s+that\\b".to_owned(), "the fact that".to_owned()));
    v.push(("(?i)\\bit\\s+should\\s+be\\s+noted\\s+that\\b".to_owned(), "it should be noted that".to_owned()));
    assert(pairs_view(v@) =~= default_wordiness_patterns());
    v
}

pub open spec fn wordiness_style() -> FlagStyle {
    FlagStyle {
        check_name: "wordiness",
        warning: false,
        desc_prefix: "Wordy construction \"",
        desc_suffix: "\"",
        loc_prefix: "...\"",
        loc_suffix: "\"...",
        quote: Quote::Around(15),
        deterrent: false,
    }
}

fn wordiness_style_exec() -> (s: FlagStyle)
    ensures
        s == wordiness_style(),
{
    FlagStyle {
        check_name: "wordiness",
        warning: false,
        desc_prefix: "Wordy construction \"",
        desc_suffix: "\"",
        loc_prefix: "...\"",
        loc_suffix: "\"...",
        quote: Quote::Around(15),
        deterrent: false,
    }
}

pub fn check_wordiness(text: &str, params: Option<&TomlTable>) -> (r: Vec<SlopFlag>)
    ensures
        flags_view(r@) == phrase_flags(wordiness_style(), default_wordiness_patterns(), text@, opt_table(params)),
{
    let pats = match custom_pattern_list(params) {
        Some(p) => p,
        None => default_wordiness_pattern_list(),
    };
    flags_for_patterns(wordiness_style_exec(), text, &pats)
}

} // verus!
