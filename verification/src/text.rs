//! Character-level text utilities shared by the checks: whitespace, trimming,
//! byte-range slicing of UTF-8 text, counting, and decimal rendering.
use vstd::prelude::*;
use vstd::string::*;
use vstd::utf8::*;

verus! {

broadcast use vstd::string::group_string_axioms;

/// `String::push` appends one character.
pub assume_specification[ String::push ](s: &mut String, ch: char)
    ensures
        final(s)@ == old(s)@.push(ch),
;

// ---------------------------------------------------------------------------
// Whitespace (Unicode White_Space, as `char::is_whitespace` documents it)
// ---------------------------------------------------------------------------

/// The Unicode `White_Space` property.
pub open spec fn is_ws(c: char) -> bool {
    ||| ('\t' <= c && c <= '\r')
    ||| c == ' '
    ||| c == '\u{85}'
    ||| c == '\u{A0}'
    ||| c == '\u{1680}'
    ||| ('\u{2000}' <= c && c <= '\u{200A}')
    ||| c == '\u{2028}'
    ||| c == '\u{2029}'
    ||| c == '\u{202F}'
    ||| c == '\u{205F}'
    ||| c == '\u{3000}'
}

pub fn is_whitespace(c: char) -> (b: bool)
    ensures
        b == is_ws(c),
{
    ('\t' <= c && c <= '\r') || c == ' ' || c == '\u{85}' || c == '\u{A0}' || c == '\u{1680}' || (
    '\u{2000}' <= c && c <= '\u{200A}') || c == '\u{2028}' || c == '\u{2029}' || c == '\u{202F}'
        || c == '\u{205F}' || c == '\u{3000}'
}

/// Every character is whitespace (so trimming leaves nothing).
pub open spec fn all_ws(s: Seq<char>) -> bool {
    forall|i: int| 0 <= i < s.len() ==> #[trigger] is_ws(s[i])
}

/// Number of leading whitespace characters.
pub open spec fn leading_ws(s: Seq<char>) -> nat
    decreases s.len(),
{
    if s.len() > 0 && is_ws(s[0]) {
        1 + leading_ws(s.drop_first())
    } else {
        0
    }
}

/// Number of trailing whitespace characters.
pub open spec fn trailing_ws(s: Seq<char>) -> nat
    decreases s.len(),
{
    if s.len() > 0 && is_ws(s.last()) {
        1 + trailing_ws(s.drop_last())
    } else {
        0
    }
}

/// `s` without leading and trailing whitespace (`str::trim`).
pub open spec fn trim(s: Seq<char>) -> Seq<char> {
    let t = s.skip(leading_ws(s) as int);
    t.take(t.len() - trailing_ws(t))
}

pub proof fn lemma_leading_ws(s: Seq<char>)
    ensures
        leading_ws(s) <= s.len(),
        forall|i: int| 0 <= i < leading_ws(s) ==> is_ws(#[trigger] s[i]),
        leading_ws(s) < s.len() ==> !is_ws(s[leading_ws(s) as int]),
    decreases s.len(),
{
    if s.len() > 0 && is_ws(s[0]) {
        lemma_leading_ws(s.drop_first());
        assert forall|i: int| 0 <= i < leading_ws(s) implies is_ws(#[trigger] s[i]) by {
            if i > 0 {
                assert(s[i] == s.drop_first()[i - 1]);
            }
        }
    }
}

pub proof fn lemma_trailing_ws(s: Seq<char>)
    ensures
        trailing_ws(s) <= s.len(),
        forall|i: int| s.len() - trailing_ws(s) <= i < s.len() ==> is_ws(#[trigger] s[i]),
        trailing_ws(s) < s.len() ==> !is_ws(s[s.len() - trailing_ws(s) - 1]),
    decreases s.len(),
{
    if s.len() > 0 && is_ws(s.last()) {
        lemma_trailing_ws(s.drop_last());
        assert forall|i: int| s.len() - trailing_ws(s) <= i < s.len() implies is_ws(
            #[trigger] s[i],
        ) by {
            if i < s.len() - 1 {
                assert(s[i] == s.drop_last()[i]);
            }
        }
    }
}

/// Index of the first non-whitespace character (or the length).
fn first_non_ws(v: &Vec<char>) -> (k: usize)
    ensures
        k == leading_ws(v@),
        k <= v.len(),
{
    proof {
        lemma_leading_ws(v@);
    }
    let mut k: usize = 0;
    while k < v.len() && is_whitespace(v[k])
        invariant
            k <= v.len(),
            k <= leading_ws(v@),
            leading_ws(v@) <= v.len(),
            forall|i: int| 0 <= i < leading_ws(v@) ==> is_ws(#[trigger] v@[i]),
            leading_ws(v@) < v.len() ==> !is_ws(v@[leading_ws(v@) as int]),
        decreases v.len() - k,
    {
        k += 1;
    }
    k
}

/// Number of trailing whitespace characters of `v[from..]`.
fn count_trailing_ws(v: &Vec<char>, from: usize) -> (k: usize)
    requires
        from <= v.len(),
    ensures
        k == trailing_ws(v@.skip(from as int)),
        k <= v.len() - from,
{
    let ghost t = v@.skip(from as int);
    proof {
        lemma_trailing_ws(t);
    }
    let mut k: usize = 0;
    while k < v.len() - from && is_whitespace(v[v.len() - 1 - k])
        invariant
            from <= v.len(),
            t == v@.skip(from as int),
            k <= v.len() - from,
            k <= trailing_ws(t),
            trailing_ws(t) <= t.len(),
            forall|i: int| t.len() - trailing_ws(t) <= i < t.len() ==> is_ws(#[trigger] t[i]),
            trailing_ws(t) < t.len() ==> !is_ws(t[t.len() - trailing_ws(t) - 1]),
        decreases v.len() - from - k,
    {
        assert(v@[v.len() - 1 - k] == t[t.len() - 1 - k]);
        k += 1;
    }
    if k < v.len() - from {
        assert(v@[v.len() - 1 - k] == t[t.len() - 1 - k]);
    }
    k
}

// ---------------------------------------------------------------------------
// Converting between `str`, `String` and character vectors
// ---------------------------------------------------------------------------

/// The characters of `s`, in order.
pub fn chars_of(s: &str) -> (v: Vec<char>)
    ensures
        v@ == s@,
{
    let mut v: Vec<char> = Vec::new();
    for c in it: s.chars()
        invariant
            v@ == it.seq().take(it.index() as int),
            it.seq() == s@,
    {
        v.push(c);
    }
    v
}

/// A string holding `v[from..to]`.
pub fn string_of_range(v: &Vec<char>, from: usize, to: usize) -> (s: String)
    requires
        from <= to <= v.len(),
    ensures
        s@ == v@.subrange(from as int, to as int),
{
    let mut s = String::new();
    let mut i: usize = from;
    while i < to
        invariant
            from <= i <= to <= v.len(),
            s@ == v@.subrange(from as int, i as int),
        decreases to - i,
    {
        s.push(v[i]);
        i += 1;
    }
    s
}

/// A string holding exactly the given characters.
pub fn string_of(v: &Vec<char>) -> (s: String)
    ensures
        s@ == v@,
{
    let s = string_of_range(v, 0, v.len());
    assert(v@.subrange(0, v@.len() as int) =~= v@);
    s
}

/// Appends the characters of `v` to `s`.
pub fn push_chars(s: &mut String, v: &Vec<char>)
    ensures
        final(s)@ == old(s)@ + v@,
{
    let mut i: usize = 0;
    while i < v.len()
        invariant
            i <= v.len(),
            s@ == old(s)@ + v@.take(i as int),
        decreases v.len() - i,
    {
        s.push(v[i]);
        i += 1;
        assert(v@.take(i as int) =~= v@.take(i - 1).push(v@[i - 1]));
    }
    assert(v@.take(v.len() as int) =~= v@);
}

/// Whether two strings hold the same characters.
pub fn str_eq(a: &str, b: &str) -> (r: bool)
    ensures
        r == (a@ == b@),
{
    broadcast use vstd::utf8::encode_utf8_decode_utf8;

    let x = a.as_bytes();
    let y = b.as_bytes();
    if x.len() != y.len() {
        proof {
            if a@ == b@ {
                assert(x@ == y@);
            }
        }
        return false;
    }
    let mut i: usize = 0;
    while i < x.len()
        invariant
            i <= x.len() == y.len(),
            x@ == encode_utf8(a@),
            y@ == encode_utf8(b@),
            forall|j: int| 0 <= j < i ==> x@[j] == y@[j],
        decreases x.len() - i,
    {
        if x[i] != y[i] {
            proof {
                if a@ == b@ {
                    assert(x@ == y@);
                }
            }
            return false;
        }
        i += 1;
    }
    assert(x@ =~= y@);
    assert(decode_utf8(encode_utf8(a@)) == a@);
    assert(decode_utf8(encode_utf8(b@)) == b@);
    true
}

/// A new string holding `a` followed by `b`.
pub fn concat2(a: &str, b: &str) -> (s: String)
    ensures
        s@ == a@ + b@,
{
    let mut s = String::from_str(a);
    s.append(b);
    s
}

/// A new string holding `a`, `b` and `c` in turn.
pub fn concat3(a: &str, b: &str, c: &str) -> (s: String)
    ensures
        s@ == a@ + b@ + c@,
{
    let mut s = String::from_str(a);
    s.append(b);
    s.append(c);
    s
}

// ---------------------------------------------------------------------------
// Trimming, replacing, truncating
// ---------------------------------------------------------------------------

/// `s` with every `from` replaced by `to` (`str::replace` on one character).
pub open spec fn replace_char(s: Seq<char>, from: char, to: char) -> Seq<char> {
    s.map_values(|c: char| if c == from { to } else { c })
}

/// The first `n` characters of `s` (all of it when shorter).
pub open spec fn prefix(s: Seq<char>, n: nat) -> Seq<char> {
    if s.len() <= n {
        s
    } else {
        s.take(n as int)
    }
}

/// The characters of `v` without leading and trailing whitespace.
pub fn trim_chars(v: &Vec<char>) -> (r: Vec<char>)
    ensures
        r@ == trim(v@),
{
    let a = first_non_ws(v);
    let b = count_trailing_ws(v, a);
    let mut r: Vec<char> = Vec::new();
    let end = v.len() - b;
    let mut i = a;
    while i < end
        invariant
            a <= i <= end <= v.len(),
            r@ == v@.subrange(a as int, i as int),
        decreases end - i,
    {
        r.push(v[i]);
        i += 1;
    }
    assert(r@ =~= trim(v@));
    r
}

/// `s.trim()` as an owned string.
pub fn trim_str(s: &str) -> (r: String)
    ensures
        r@ == trim(s@),
{
    let v = chars_of(s);
    let t = trim_chars(&v);
    string_of(&t)
}

/// Whether `s.trim()` is empty.
pub fn trim_is_empty(s: &str) -> (b: bool)
    ensures
        b == (trim(s@).len() == 0),
        b == all_ws(s@),
{
    let v = chars_of(s);
    let k = first_non_ws(&v);
    proof {
        lemma_leading_ws(s@);
        lemma_trim_empty(s@);
    }
    k == v.len()
}

pub proof fn lemma_trim_empty(s: Seq<char>)
    ensures
        (trim(s).len() == 0) == (leading_ws(s) == s.len()),
        (leading_ws(s) == s.len()) == all_ws(s),
{
    lemma_leading_ws(s);
    let t = s.skip(leading_ws(s) as int);
    lemma_trailing_ws(t);
    if leading_ws(s) < s.len() {
        assert(t[0] == s[leading_ws(s) as int]);
        assert(!is_ws(t[0]));
        if trailing_ws(t) == t.len() {
            assert(is_ws(t[0]));
        }
    }
}

/// The characters of `v` with `from` replaced by `to`.
pub fn replace_chars(v: &Vec<char>, from: char, to: char) -> (r: Vec<char>)
    ensures
        r@ == replace_char(v@, from, to),
{
    let mut r: Vec<char> = Vec::new();
    let mut i: usize = 0;
    while i < v.len()
        invariant
            i <= v.len(),
            r@ == replace_char(v@.take(i as int), from, to),
        decreases v.len() - i,
    {
        let c = v[i];
        if c == from {
            r.push(to);
        } else {
            r.push(c);
        }
        i += 1;
        assert(r@ =~= replace_char(v@.take(i as int), from, to));
    }
    assert(v@.take(v.len() as int) =~= v@);
    r
}

/// The first `n` characters of `v` (all of it when shorter).
pub fn prefix_chars(v: &Vec<char>, n: usize) -> (r: Vec<char>)
    ensures
        r@ == prefix(v@, n as nat),
{
    let end = if v.len() <= n {
        v.len()
    } else {
        n
    };
    let mut r: Vec<char> = Vec::new();
    let mut i: usize = 0;
    while i < end
        invariant
            i <= end <= v.len(),
            r@ == v@.take(i as int),
        decreases end - i,
    {
        r.push(v[i]);
        i += 1;
        assert(r@ =~= v@.take(i as int));
    }
    assert(v@.take(end as int) =~= prefix(v@, n as nat));
    r
}

// ---------------------------------------------------------------------------
// Counting
// ---------------------------------------------------------------------------

/// How many times `c` occurs in `s`.
pub open spec fn count_char(s: Seq<char>, c: char) -> nat
    decreases s.len(),
{
    if s.len() == 0 {
        0
    } else {
        count_char(s.drop_last(), c) + if s.last() == c {
            1nat
        } else {
            0nat
        }
    }
}

/// Counting is additive: the count over a concatenation is the sum of the
/// counts over its parts, whatever characters meet at the join.
pub proof fn law_count_char_concat(a: Seq<char>, b: Seq<char>, c: char)
    ensures
        count_char(a + b, c) == count_char(a, c) + count_char(b, c),
    decreases b.len(),
{
    if b.len() == 0 {
        assert(a + b =~= a);
    } else {
        law_count_char_concat(a, b.drop_last(), c);
        assert((a + b).drop_last() =~= a + b.drop_last());
    }
}

/// A single character counts once exactly when it is the character counted.
pub proof fn law_count_char_single(x: char, c: char)
    ensures
        count_char(seq![x], c) == if x == c {
            1nat
        } else {
            0nat
        },
{
    assert(seq![x].drop_last() =~= Seq::<char>::empty());
    assert(count_char(Seq::<char>::empty(), c) == 0);
    assert(seq![x].last() == x);
}

/// The count is the number of positions that hold the character.
pub proof fn law_count_char_positions(s: Seq<char>, c: char)
    ensures
        count_char(s, c) == Set::new(|i: int| 0 <= i < s.len() && s[i] == c).len(),
    decreases s.len(),
{
    let p = s.drop_last();
    let here = Set::new(|i: int| 0 <= i < s.len() && s[i] == c);
    let before = Set::new(|i: int| 0 <= i < p.len() && p[i] == c);
    if s.len() == 0 {
        assert(here =~= Set::empty());
    } else {
        law_count_char_positions(p, c);
        lemma_positions_finite(p, c);
        if s.last() == c {
            assert(here =~= before.insert(s.len() - 1));
        } else {
            assert(here =~= before);
        }
    }
}

proof fn lemma_positions_finite(s: Seq<char>, c: char)
    ensures
        Set::new(|i: int| 0 <= i < s.len() && s[i] == c).finite(),
{
    let pos = Set::new(|i: int| 0 <= i < s.len() && s[i] == c);
    let all = Set::new(|i: int| 0 <= i < s.len());
    assert(all =~= vstd::set_lib::set_int_range(0, s.len() as int));
    vstd::set_lib::lemma_int_range(0, s.len() as int);
    assert(pos.subset_of(all));
    vstd::set_lib::lemma_len_subset(pos, all);
}

/// How many times `c` occurs in `s`.
pub fn count_occurrences(s: &str, c: char) -> (n: usize)
    ensures
        n == count_char(s@, c),
{
    let v = chars_of(s);
    let mut n: usize = 0;
    let mut i: usize = 0;
    while i < v.len()
        invariant
            i <= v.len(),
            n == count_char(v@.take(i as int), c),
            n <= i,
        decreases v.len() - i,
    {
        assert(v@.take(i + 1).drop_last() =~= v@.take(i as int));
        if v[i] == c {
            n += 1;
        }
        i += 1;
    }
    assert(v@.take(v.len() as int) =~= v@);
    n
}

/// Number of maximal runs of non-whitespace characters (`split_whitespace().count()`).
pub open spec fn word_count_spec(s: Seq<char>) -> nat
    decreases s.len(),
{
    if s.len() == 0 {
        0
    } else {
        let w = s.drop_last();
        word_count_spec(w) + if !is_ws(s.last()) && (w.len() == 0 || is_ws(w.last())) {
            1nat
        } else {
            0nat
        }
    }
}

/// Appending text to a text that is empty or ends in whitespace adds the
/// appended text's words.
proof fn lemma_word_count_after_ws(s: Seq<char>, b: Seq<char>)
    requires
        s.len() == 0 || is_ws(s.last()),
    ensures
        word_count_spec(s + b) == word_count_spec(s) + word_count_spec(b),
    decreases b.len(),
{
    if b.len() == 0 {
        assert(s + b =~= s);
    } else {
        let bw = b.drop_last();
        lemma_word_count_after_ws(s, bw);
        assert((s + b).drop_last() =~= s + bw);
        assert((s + b).last() == b.last());
        if bw.len() > 0 {
            assert((s + bw).last() == bw.last());
        } else {
            assert(s + bw =~= s);
        }
    }
}

/// Words are counted the same whether two texts are counted apart or joined
/// by a space: `word_count(a + " " + b) == word_count(a) + word_count(b)`.
pub proof fn law_word_count_joins(a: Seq<char>, b: Seq<char>)
    ensures
        word_count_spec(a + " "@ + b) == word_count_spec(a) + word_count_spec(b),
{
    reveal_strlit(" ");
    let s = a + " "@;
    assert(s.drop_last() =~= a);
    assert(is_ws(s.last()));
    lemma_word_count_after_ws(s, b);
}

/// A text has no words exactly when it is all whitespace (the empty text
/// among them).
pub proof fn law_word_count_blank(s: Seq<char>)
    ensures
        word_count_spec(s) == 0 <==> all_ws(s),
    decreases s.len(),
{
    if s.len() > 0 {
        let w = s.drop_last();
        law_word_count_blank(w);
        if all_ws(s) {
            assert forall|i: int| 0 <= i < w.len() implies #[trigger] is_ws(w[i]) by {
                assert(w[i] == s[i]);
            }
            assert(is_ws(s[s.len() - 1]));
        }
        if word_count_spec(s) == 0 {
            if w.len() > 0 {
                assert(is_ws(w[w.len() - 1]));
            }
            assert forall|i: int| 0 <= i < s.len() implies #[trigger] is_ws(s[i]) by {
                if i < w.len() {
                    assert(w[i] == s[i]);
                }
            }
        }
    }
}

/// Number of whitespace-separated words of `v`.
pub fn word_count_chars(v: &Vec<char>) -> (n: usize)
    ensures
        n == word_count_spec(v@),
{
    let mut n: usize = 0;
    let mut i: usize = 0;
    let mut prev_ws = true;
    while i < v.len()
        invariant
            i <= v.len(),
            n == word_count_spec(v@.take(i as int)),
            n <= i,
            prev_ws == (i == 0 || is_ws(v@[i - 1])),
        decreases v.len() - i,
    {
        assert(v@.take(i + 1).drop_last() =~= v@.take(i as int));
        let w = is_whitespace(v[i]);
        if !w && prev_ws {
            n += 1;
        }
        prev_ws = w;
        i += 1;
    }
    assert(v@.take(v.len() as int) =~= v@);
    n
}

/// Number of whitespace-separated words of `sentence`.
pub fn word_count(sentence: &str) -> (n: usize)
    ensures
        n == word_count_spec(sentence@),
{
    let v = chars_of(sentence);
    word_count_chars(&v)
}

// ---------------------------------------------------------------------------
// Decimal rendering
// ---------------------------------------------------------------------------

/// The decimal digit character of `d < 10`.
pub open spec fn digit(d: nat) -> char {
    if d == 0 {
        '0'
    } else if d == 1 {
        '1'
    } else if d == 2 {
        '2'
    } else if d == 3 {
        '3'
    } else if d == 4 {
        '4'
    } else if d == 5 {
        '5'
    } else if d == 6 {
        '6'
    } else if d == 7 {
        '7'
    } else if d == 8 {
        '8'
    } else {
        '9'
    }
}

/// The decimal representation of `n` (as `{}` prints an unsigned integer).
pub open spec fn decimal(n: nat) -> Seq<char>
    decreases n,
{
    if n < 10 {
        seq![digit(n)]
    } else {
        decimal(n / 10).push(digit(n % 10))
    }
}

fn digit_char(d: u128) -> (c: char)
    requires
        d < 10,
    ensures
        c == digit(d as nat),
{
    if d == 0 {
        '0'
    } else if d == 1 {
        '1'
    } else if d == 2 {
        '2'
    } else if d == 3 {
        '3'
    } else if d == 4 {
        '4'
    } else if d == 5 {
        '5'
    } else if d == 6 {
        '6'
    } else if d == 7 {
        '7'
    } else if d == 8 {
        '8'
    } else {
        '9'
    }
}

/// Appends the decimal representation of `n` to `s`.
pub fn push_decimal(s: &mut String, n: u128)
    ensures
        final(s)@ == old(s)@ + decimal(n as nat),
    decreases n,
{
    if n < 10 {
        s.push(digit_char(n));
        assert(old(s)@.push(digit(n as nat)) =~= old(s)@ + decimal(n as nat));
    } else {
        push_decimal(s, n / 10);
        s.push(digit_char(n % 10));
        assert(old(s)@ + decimal((n / 10) as nat) + seq![digit((n % 10) as nat)] =~= old(s)@
            + decimal(n as nat));
    }
}

// ---------------------------------------------------------------------------
// Byte ranges of UTF-8 text
// ---------------------------------------------------------------------------

/// The characters encoded by bytes `start..end` of the UTF-8 encoding of `t`.
pub open spec fn byte_range(t: Seq<char>, start: int, end: int) -> Seq<char> {
    decode_utf8(encode_utf8(t).subrange(start, end))
}

/// `start..end` is a range of `t`'s UTF-8 encoding cut at character boundaries.
pub open spec fn valid_range(t: Seq<char>, start: int, end: int) -> bool {
    &&& 0 <= start <= end <= encode_utf8(t).len()
    &&& is_char_boundary(encode_utf8(t), start)
    &&& is_char_boundary(encode_utf8(t), end)
}

pub proof fn lemma_prefix_boundary(b: Seq<u8>, start: int, end: int)
    requires
        valid_utf8(b),
        0 <= start <= end <= b.len(),
        is_char_boundary(b, start),
        is_char_boundary(b, end),
    ensures
        valid_utf8(b.subrange(0, end)),
        is_char_boundary(b.subrange(0, end), start),
{
    broadcast use vstd::utf8::valid_utf8_split, vstd::utf8::is_char_boundary_start_end_of_seq;

    let p = b.subrange(0, end);
    valid_utf8_split(b, end);
    if start == end {
        is_char_boundary_start_end_of_seq(p);
    } else {
        is_char_boundary_iff_not_is_continuation_byte(b, start);
        is_char_boundary_iff_not_is_continuation_byte(p, start);
    }
}

/// The substring of `text` between byte offsets `start` and `end`.
pub fn slice_bytes(text: &str, start: usize, end: usize) -> (r: &str)
    requires
        valid_range(text@, start as int, end as int),
    ensures
        r@ == byte_range(text@, start as int, end as int),
{
    broadcast use vstd::utf8::encode_utf8_valid_utf8, vstd::utf8::encode_utf8_decode_utf8;

    proof {
        lemma_prefix_boundary(text.spec_bytes(), start as int, end as int);
    }
    let (a, _) = text.split_at(end);
    let (_, m) = a.split_at(start);
    assert(m.spec_bytes() =~= text.spec_bytes().subrange(start as int, end as int));
    assert(decode_utf8(encode_utf8(m@)) == m@);
    m
}

/// The substring of `text` from byte offset `start` to the end.
pub fn suffix_bytes(text: &str, start: usize) -> (r: &str)
    requires
        valid_range(text@, start as int, encode_utf8(text@).len() as int),
    ensures
        r@ == byte_range(text@, start as int, encode_utf8(text@).len() as int),
{
    let n = byte_len(text);
    slice_bytes(text, start, n)
}

/// Length in bytes of the UTF-8 encoding of `text`.
pub fn byte_len(text: &str) -> (n: usize)
    ensures
        n == encode_utf8(text@).len(),
{
    text.as_bytes().len()
}

pub open spec fn strings_view(v: Seq<String>) -> Seq<Seq<char>> {
    v.map_values(|s: String| s@)
}

/// The items of `xs` separated by `sep`.
pub open spec fn join(xs: Seq<Seq<char>>, sep: Seq<char>) -> Seq<char>
    decreases xs.len(),
{
    if xs.len() == 0 {
        Seq::empty()
    } else if xs.len() == 1 {
        xs[0]
    } else {
        join(xs.drop_last(), sep) + sep + xs.last()
    }
}


/// The strings of `xs` separated by `sep`.
pub fn join_strings(xs: &Vec<String>, sep: &str) -> (r: String)
    ensures
        r@ == join(strings_view(xs@), sep@),
{
    let ghost es = strings_view(xs@);
    let mut r = String::new();
    let mut i: usize = 0;
    while i < xs.len()
        invariant
            i <= xs.len(),
            es == strings_view(xs@),
            r@ == join(es.take(i as int), sep@),
        decreases xs.len() - i,
    {
        assert(es.take(i + 1).drop_last() =~= es.take(i as int));
        if i > 0 {
            r.append(sep);
        }
        r.append(xs[i].as_str());
        i += 1;
        proof {
            if i == 1 {
                assert(es.take(1) =~= seq![es[0]]);
                assert(r@ =~= join(es.take(i as int), sep@)) by {
                    reveal_strlit("");
                }
            }
        }
    }
    assert(es.take(xs.len() as int) =~= es);
    r
}

} // verus!
