//! Calls into the `regex` crate. Every search names its result: the checks are
//! verified against these names, and the regex engine itself is trusted.
use vstd::prelude::*;
use crate::text::valid_range;

verus! {

/// Whether `regex::Regex::new(pattern)` succeeds.
pub uninterp spec fn regex_compiles(pattern: Seq<char>) -> bool;

/// The byte ranges `(start, end)` that `Regex::find_iter` yields for `pattern`
/// over `haystack`, in order.
pub uninterp spec fn regex_find_spans(pattern: Seq<char>, haystack: Seq<char>) -> Seq<
    (usize, usize),
>;

/// For each item of `Regex::captures_iter` of `pattern` over `haystack`, the byte
/// range of group 0 and, when it took part in the match, of group 1.
pub uninterp spec fn regex_capture_spans(pattern: Seq<char>, haystack: Seq<char>) -> Seq<
    ((usize, usize), Option<(usize, usize)>),
>;

/// The text that `Regex::replace_all` returns for `pattern` over `haystack`, with
/// `replacement` expanded for each match.
pub uninterp spec fn regex_replace_all(
    pattern: Seq<char>,
    haystack: Seq<char>,
    replacement: Seq<char>,
) -> Seq<char>;

/// What `find_spans` yields: nothing when the pattern does not compile.
pub open spec fn find_spans_spec(pattern: Seq<char>, haystack: Seq<char>) -> Seq<(usize, usize)> {
    if regex_compiles(pattern) {
        regex_find_spans(pattern, haystack)
    } else {
        Seq::empty()
    }
}

/// Every span lies inside `haystack` and starts and ends on character boundaries.
pub open spec fn spans_valid(haystack: Seq<char>, spans: Seq<(usize, usize)>) -> bool {
    forall|i: int|
        0 <= i < spans.len() ==> valid_range(haystack, (#[trigger] spans[i]).0 as int, spans[i].1 as int)
}

/// Every capture lies inside `haystack` on character boundaries.
pub open spec fn captures_valid(
    haystack: Seq<char>,
    caps: Seq<((usize, usize), Option<(usize, usize)>)>,
) -> bool {
    forall|i: int|
        0 <= i < caps.len() ==> {
            &&& valid_range(haystack, (#[trigger] caps[i]).0.0 as int, caps[i].0.1 as int)
            &&& (caps[i].1 matches Some(g) ==> valid_range(haystack, g.0 as int, g.1 as int))
        }
}

/// Whether `regex::Regex::new(pattern)` succeeds.
#[verifier::external_body]
pub(crate) fn pattern_compiles(pattern: &str) -> (b: bool)
    ensures
        b == regex_compiles(pattern@),
{
    regex::Regex::new(pattern).is_ok()
}

/// Compiles `pattern` with `regex::Regex::new` and collects the ranges of
/// `Regex::find_iter` over `haystack`. Claimed: `None` exactly when the pattern
/// does not compile; otherwise the named ranges, each of which (as the crate
/// documents of `Match::start`/`Match::end`) lies within the haystack and on
/// UTF-8 character boundaries.
#[verifier::external_body]
pub(crate) fn find_spans(pattern: &str, haystack: &str) -> (r: Option<Vec<(usize, usize)>>)
    ensures
        r is Some <==> regex_compiles(pattern@),
        r matches Some(v) ==> v@ == regex_find_spans(pattern@, haystack@),
        r matches Some(v) ==> spans_valid(haystack@, v@),
{
    match regex::Regex::new(pattern) {
        Ok(re) => Some(re.find_iter(haystack).map(|m| (m.start(), m.end())).collect()),
        Err(_) => None,
    }
}

/// Compiles `pattern` with `regex::Regex::new` and collects, for each item of
/// `Regex::captures_iter` over `haystack`, the ranges of groups 0 and 1.
/// Claimed: `None` exactly when the pattern does not compile; otherwise the named
/// ranges, on character boundaries within the haystack.
#[verifier::external_body]
pub(crate) fn capture_spans(pattern: &str, haystack: &str) -> (r: Option<
    Vec<((usize, usize), Option<(usize, usize)>)>,
>)
    ensures
        r is Some <==> regex_compiles(pattern@),
        r matches Some(v) ==> v@ == regex_capture_spans(pattern@, haystack@),
        r matches Some(v) ==> captures_valid(haystack@, v@),
{
    match regex::Regex::new(pattern) {
        Ok(re) => Some(
            re.captures_iter(haystack).map(
                |c| {
                    let m0 = c.get_match();
                    ((m0.start(), m0.end()), c.get(1).map(|m| (m.start(), m.end())))
                },
            ).collect(),
        ),
        Err(_) => None,
    }
}

/// Compiles `pattern` with `regex::Regex::new` and applies `Regex::replace_all`
/// to `haystack` with `replacement`. Claimed: `None` exactly when the pattern does
/// not compile; otherwise the named text.
#[verifier::external_body]
pub(crate) fn replace_all(pattern: &str, haystack: &str, replacement: &str) -> (r: Option<String>)
    ensures
        r is Some <==> regex_compiles(pattern@),
        r matches Some(s) ==> s@ == regex_replace_all(pattern@, haystack@, replacement@),
{
    match regex::Regex::new(pattern) {
        Ok(re) => Some(re.replace_all(haystack, replacement).into_owned()),
        Err(_) => None,
    }
}

/// The characters that `regex_syntax::is_meta_character` accepts.
pub open spec fn is_meta(c: char) -> bool {
    c == '\\' || c == '.' || c == '+' || c == '*' || c == '?' || c == '(' || c == ')' || c == '|'
        || c == '[' || c == ']' || c == '{' || c == '}' || c == '^' || c == '$' || c == '#'
        || c == '&' || c == '-' || c == '~'
}

/// `s` with a backslash put before each meta character.
pub open spec fn escaped(s: Seq<char>) -> Seq<char>
    decreases s.len(),
{
    if s.len() == 0 {
        Seq::empty()
    } else {
        let e = escaped(s.drop_last());
        if is_meta(s.last()) {
            e.push('\\').push(s.last())
        } else {
            e.push(s.last())
        }
    }
}

/// `regex::escape`: puts a backslash before each meta character of `s`
/// (the characters that regex-syntax's `is_meta_character` accepts), leaving
/// every other character as is.
#[verifier::external_body]
pub(crate) fn escape(s: &str) -> (r: String)
    ensures
        r@ == escaped(s@),
{
    regex::escape(s)
}

} // verus!
