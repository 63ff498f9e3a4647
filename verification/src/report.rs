//! Reports of a result: the plain-text lines that the command line prints, the
//! counts of flags by severity, and the names of the checks that fired.
use vstd::prelude::*;
use crate::models::{SlopFlag, SlopResult, CheckScore, FlagView, flags_view, scores_view};
use crate::text::{decimal, push_decimal, chars_of, str_eq, strings_view};

verus! {

// ---------------------------------------------------------------------------
// Counting
// ---------------------------------------------------------------------------

/// How many flags have severity `sev`.
pub open spec fn severity_count(fs: Seq<FlagView>, sev: Seq<char>) -> nat
    decreases fs.len(),
{
    if fs.len() == 0 {
        0
    } else {
        severity_count(fs.drop_last(), sev) + if fs.last().severity == sev {
            1nat
        } else {
            0nat
        }
    }
}

proof fn lemma_severity_count_le(fs: Seq<FlagView>, sev: Seq<char>)
    ensures
        severity_count(fs, sev) <= fs.len(),
    decreases fs.len(),
{
    if fs.len() > 0 {
        lemma_severity_count_le(fs.drop_last(), sev);
    }
}

/// The number of flags of severity `sev`.
pub fn count_severity(flags: &Vec<SlopFlag>, sev: &str) -> (n: usize)
    ensures
        n == severity_count(flags_view(flags@), sev@),
{
    let ghost fs = flags_view(flags@);
    let mut n: usize = 0;
    let mut i: usize = 0;
    while i < flags.len()
        invariant
            i <= flags.len(),
            fs == flags_view(flags@),
            n == severity_count(fs.take(i as int), sev@),
        decreases flags.len() - i,
    {
        proof {
            assert(fs.take(i + 1).drop_last() =~= fs.take(i as int));
            lemma_severity_count_le(fs.take(i as int), sev@);
        }
        if str_eq(flags[i].severity.as_str(), sev) {
            n += 1;
        }
        i += 1;
    }
    assert(fs.take(flags.len() as int) =~= fs);
    n
}

// ---------------------------------------------------------------------------
// Names of the checks that fired
// ---------------------------------------------------------------------------

/// Strict lexicographic order by character (which is also the byte order of
/// the UTF-8 encodings).
pub open spec fn text_lt(a: Seq<char>, b: Seq<char>) -> bool
    decreases a.len(),
{
    if a.len() == 0 {
        b.len() > 0
    } else if b.len() == 0 {
        false
    } else if a[0] != b[0] {
        a[0] < b[0]
    } else {
        text_lt(a.drop_first(), b.drop_first())
    }
}

proof fn lemma_text_lt_irreflexive(a: Seq<char>)
    ensures
        !text_lt(a, a),
    decreases a.len(),
{
    if a.len() > 0 {
        lemma_text_lt_irreflexive(a.drop_first());
    }
}

proof fn lemma_text_lt_transitive(a: Seq<char>, b: Seq<char>, c: Seq<char>)
    requires
        text_lt(a, b),
        text_lt(b, c),
    ensures
        text_lt(a, c),
    decreases a.len(),
{
    if a.len() > 0 && b.len() > 0 && c.len() > 0 && a[0] == b[0] && b[0] == c[0] {
        lemma_text_lt_transitive(a.drop_first(), b.drop_first(), c.drop_first());
    }
}

proof fn lemma_text_lt_total(a: Seq<char>, b: Seq<char>)
    ensures
        a == b || text_lt(a, b) || text_lt(b, a),
    decreases a.len(),
{
    if a.len() > 0 && b.len() > 0 && a[0] == b[0] {
        lemma_text_lt_total(a.drop_first(), b.drop_first());
        if a.drop_first() == b.drop_first() {
            assert(a =~= seq![a[0]] + a.drop_first());
            assert(b =~= seq![b[0]] + b.drop_first());
        }
    } else if a.len() == 0 && b.len() == 0 {
        assert(a =~= b);
    }
}

/// Whether `a` comes strictly before `b`.
pub fn text_less(a: &str, b: &str) -> (r: bool)
    ensures
        r == text_lt(a@, b@),
{
    let x = chars_of(a);
    let y = chars_of(b);
    let mut i: usize = 0;
    assert(a@.skip(0) =~= a@);
    assert(b@.skip(0) =~= b@);
    while i < x.len() && i < y.len()
        invariant
            i <= x.len(),
            i <= y.len(),
            x@ == a@,
            y@ == b@,
            forall|j: int| 0 <= j < i ==> x@[j] == y@[j],
            text_lt(a@, b@) == text_lt(a@.skip(i as int), b@.skip(i as int)),
        decreases x.len() - i,
    {
        proof {
            assert(a@.skip(i as int).drop_first() =~= a@.skip(i + 1));
            assert(b@.skip(i as int).drop_first() =~= b@.skip(i + 1));
        }
        if x[i] != y[i] {
            return x[i] < y[i];
        }
        i += 1;
    }
    i < y.len()
}

/// Strictly increasing, so no item occurs twice.
pub open spec fn strictly_sorted(xs: Seq<Seq<char>>) -> bool {
    forall|i: int, j: int| 0 <= i < j < xs.len() ==> text_lt(#[trigger] xs[i], #[trigger] xs[j])
}

/// The texts of a finite set in strictly increasing order.
pub open spec fn sorted_of(s: Set<Seq<char>>) -> Seq<Seq<char>> {
    choose|q: Seq<Seq<char>>| strictly_sorted(q) && q.to_set() == s
}

/// Two strictly increasing sequences with the same items are equal.
pub proof fn lemma_sorted_unique(a: Seq<Seq<char>>, b: Seq<Seq<char>>)
    requires
        strictly_sorted(a),
        strictly_sorted(b),
        a.to_set() == b.to_set(),
    ensures
        a == b,
    decreases a.len(),
{
    if a.len() == 0 {
        if b.len() > 0 {
            assert(b.to_set().contains(b[0]));
        }
        assert(a =~= b);
    } else {
        if b.len() == 0 {
            assert(a.to_set().contains(a[0]));
        }
        assert(b.len() > 0);
        assert(b.to_set().contains(a[0]));
        assert(a.to_set().contains(b[0]));
        let j = choose|j: int| 0 <= j < b.len() && b[j] == a[0];
        let i = choose|i: int| 0 <= i < a.len() && a[i] == b[0];
        if i > 0 && j > 0 {
            assert(text_lt(a[0], a[i]));
            assert(text_lt(b[0], b[j]));
            lemma_text_lt_transitive(a[0], b[0], a[0]);
            lemma_text_lt_irreflexive(a[0]);
        }
        assert(a[0] == b[0]);
        let a1 = a.drop_first();
        let b1 = b.drop_first();
        assert forall|x: Seq<char>| a1.to_set().contains(x) implies b1.to_set().contains(x) by {
            let k = choose|k: int| 0 <= k < a1.len() && a1[k] == x;
            assert(a[k + 1] == x);
            assert(text_lt(a[0], a[k + 1]));
            lemma_text_lt_irreflexive(x);
            assert(a.to_set().contains(x));
            let m = choose|m: int| 0 <= m < b.len() && b[m] == x;
            assert(m != 0);
            assert(b1[m - 1] == x);
        }
        assert forall|x: Seq<char>| b1.to_set().contains(x) implies a1.to_set().contains(x) by {
            let k = choose|k: int| 0 <= k < b1.len() && b1[k] == x;
            assert(b[k + 1] == x);
            assert(text_lt(b[0], b[k + 1]));
            lemma_text_lt_irreflexive(x);
            assert(b.to_set().contains(x));
            let m = choose|m: int| 0 <= m < a.len() && a[m] == x;
            assert(m != 0);
            assert(a1[m - 1] == x);
        }
        assert(a1.to_set() =~= b1.to_set());
        assert forall|x: int, y: int| 0 <= x < y < a1.len() implies text_lt(
            #[trigger] a1[x],
            #[trigger] a1[y],
        ) by {
            assert(a1[x] == a[x + 1] && a1[y] == a[y + 1]);
        }
        assert forall|x: int, y: int| 0 <= x < y < b1.len() implies text_lt(
            #[trigger] b1[x],
            #[trigger] b1[y],
        ) by {
            assert(b1[x] == b[x + 1] && b1[y] == b[y + 1]);
        }
        lemma_sorted_unique(a1, b1);
        assert forall|k: int| 0 <= k < a.len() implies a[k] == b[k] by {
            if k > 0 {
                assert(a[k] == a1[k - 1] && b[k] == b1[k - 1]);
            }
        }
        assert(a =~= b);
    }
}

/// A strictly increasing arrangement of a set is the one [`sorted_of`] names.
pub proof fn lemma_sorted_of(q: Seq<Seq<char>>, s: Set<Seq<char>>)
    requires
        strictly_sorted(q),
        q.to_set() == s,
    ensures
        sorted_of(s) == q,
{
    assert(exists|x: Seq<Seq<char>>| strictly_sorted(x) && x.to_set() == s);
    lemma_sorted_unique(sorted_of(s), q);
}

/// Inserts `name` into a strictly increasing list, unless it is there already.
pub fn insert_sorted(r: &mut Vec<String>, name: &str)
    requires
        strictly_sorted(strings_view(old(r)@)),
    ensures
        strictly_sorted(strings_view(final(r)@)),
        strings_view(final(r)@).to_set() == strings_view(old(r)@).to_set().insert(name@),
{
    let ghost rv = strings_view(r@);
    let mut p: usize = 0;
    while p < r.len() && text_less(r[p].as_str(), name)
        invariant
            p <= r.len(),
            rv == strings_view(r@),
            strictly_sorted(rv),
            forall|j: int| 0 <= j < p ==> text_lt(#[trigger] rv[j], name@),
        decreases r.len() - p,
    {
        p += 1;
    }
    let present = p < r.len() && str_eq(r[p].as_str(), name);
    if present {
        proof {
            assert(rv[p as int] == name@);
            assert(rv.to_set().contains(name@));
            assert(rv.to_set() =~= rv.to_set().insert(name@));
        }
    } else {
        proof {
            if p < r.len() {
                lemma_text_lt_total(rv[p as int], name@);
            }
        }
        r.insert(p, name.to_owned());
        proof {
            let nv = strings_view(r@);
            assert(nv =~= rv.insert(p as int, name@));
            assert forall|i: int, j: int| 0 <= i < j < nv.len() implies text_lt(
                #[trigger] nv[i],
                #[trigger] nv[j],
            ) by {
                if j < p {
                    assert(nv[i] == rv[i] && nv[j] == rv[j]);
                } else if i < p && j == p {
                } else if i < p && j > p {
                    assert(text_lt(rv[i], rv[j - 1]));
                } else if i == p && j > p {
                    assert(text_lt(name@, rv[p as int]));
                    if j - 1 > p {
                        assert(text_lt(rv[p as int], rv[j - 1]));
                        lemma_text_lt_transitive(name@, rv[p as int], rv[j - 1]);
                    }
                } else {
                    assert(nv[i] == rv[i - 1]);
                    assert(nv[j] == rv[j - 1]);
                    assert(text_lt(rv[i - 1], rv[j - 1]));
                }
            }
            assert forall|n: Seq<char>| nv.to_set().contains(n) <==> rv.to_set().insert(
                name@,
            ).contains(n) by {
                if nv.to_set().contains(n) {
                    let i = choose|i: int| 0 <= i < nv.len() && nv[i] == n;
                    if i < p {
                        assert(rv[i] == n);
                    } else if i > p {
                        assert(rv[i - 1] == n);
                    }
                }
                if rv.to_set().contains(n) {
                    let m = choose|m: int| 0 <= m < rv.len() && rv[m] == n;
                    if m < p {
                        assert(nv[m] == n);
                    } else {
                        assert(nv[m + 1] == n);
                    }
                }
                if n == name@ {
                    assert(nv[p as int] == n);
                }
            }
            assert(nv.to_set() =~= rv.to_set().insert(name@));
        }
    }
}

/// The distinct texts of `xs`, in strictly increasing order.
pub fn sorted_texts(xs: &Vec<String>) -> (r: Vec<String>)
    ensures
        strings_view(r@) == sorted_of(strings_view(xs@).to_set()),
        strictly_sorted(strings_view(r@)),
        strings_view(r@).to_set() == strings_view(xs@).to_set(),
{
    let mut r: Vec<String> = Vec::new();
    let mut i: usize = 0;
    proof {
        assert(strings_view(r@).to_set() =~= strings_view(xs@).take(0).to_set());
    }
    while i < xs.len()
        invariant
            i <= xs.len(),
            strictly_sorted(strings_view(r@)),
            strings_view(r@).to_set() == strings_view(xs@).take(i as int).to_set(),
        decreases xs.len() - i,
    {
        insert_sorted(&mut r, xs[i].as_str());
        proof {
            let xv = strings_view(xs@);
            assert(xv.take(i + 1) =~= xv.take(i as int).push(xv[i as int]));
            xv.take(i as int).lemma_push_to_set_commute(xv[i as int]);
        }
        i += 1;
    }
    proof {
        assert(strings_view(xs@).take(xs.len() as int) =~= strings_view(xs@));
        lemma_sorted_of(strings_view(r@), strings_view(xs@).to_set());
    }
    r
}

/// The names of the checks that raised the flags, in order, without repeats.
pub open spec fn fired_names_spec(fs: Seq<FlagView>) -> Set<Seq<char>> {
    Set::new(|n: Seq<char>| exists|i: int| 0 <= i < fs.len() && (#[trigger] fs[i]).check_name == n)
}

/// The names of the checks that raised `flags`, each once, in increasing order.
pub fn checks_triggered(flags: &Vec<SlopFlag>) -> (r: Vec<String>)
    ensures
        strictly_sorted(strings_view(r@)),
        strings_view(r@).to_set() == fired_names_spec(flags_view(flags@)),
{
    let ghost fs = flags_view(flags@);
    let mut r: Vec<String> = Vec::new();
    let mut k: usize = 0;
    while k < flags.len()
        invariant
            k <= flags.len(),
            fs == flags_view(flags@),
            strictly_sorted(strings_view(r@)),
            strings_view(r@).to_set() == fired_names_spec(fs.take(k as int)),
        decreases flags.len() - k,
    {
        let name = flags[k].check_name.as_str();
        let ghost rv = strings_view(r@);
        let mut p: usize = 0;
        while p < r.len() && text_less(r[p].as_str(), name)
            invariant
                p <= r.len(),
                rv == strings_view(r@),
                strictly_sorted(rv),
                forall|j: int| 0 <= j < p ==> text_lt(#[trigger] rv[j], name@),
            decreases r.len() - p,
        {
            p += 1;
        }
        let present = p < r.len() && str_eq(r[p].as_str(), name);
        proof {
            assert(fs.take(k + 1) =~= fs.take(k as int).push(fs[k as int]));
        }
        if !present {
            proof {
                if p < r.len() {
                    lemma_text_lt_total(rv[p as int], name@);
                }
            }
            r.insert(p, name.to_owned());
            proof {
                let nv = strings_view(r@);
                assert(nv =~= rv.insert(p as int, name@));
                assert forall|i: int, j: int| 0 <= i < j < nv.len() implies text_lt(
                    #[trigger] nv[i],
                    #[trigger] nv[j],
                ) by {
                    if j < p {
                        assert(nv[i] == rv[i] && nv[j] == rv[j]);
                    } else if i < p && j == p {
                    } else if i < p && j > p {
                        assert(text_lt(rv[i], rv[j - 1]));
                    } else if i == p && j > p {
                        assert(text_lt(name@, rv[p as int]));
                        if j - 1 > p {
                            assert(text_lt(rv[p as int], rv[j - 1]));
                            lemma_text_lt_transitive(name@, rv[p as int], rv[j - 1]);
                        }
                    } else {
                        assert(p < i < j);
                        assert(0 <= i - 1 < j - 1 < rv.len());
                        assert(nv[i] == rv[i - 1]);
                        assert(nv[j] == rv[j - 1]);
                        assert(text_lt(rv[i - 1], rv[j - 1]));
                    }
                }
                assert forall|n: Seq<char>| nv.to_set().contains(n) <==> fired_names_spec(
                    fs.take(k + 1),
                ).contains(n) by {
                    if nv.to_set().contains(n) {
                        let i = choose|i: int| 0 <= i < nv.len() && nv[i] == n;
                        if i < p {
                            assert(rv[i] == n);
                            assert(rv.to_set().contains(n));
                        } else if i > p {
                            assert(rv[i - 1] == n);
                            assert(rv.to_set().contains(n));
                        } else {
                            assert(fs.take(k + 1)[k as int].check_name == n);
                        }
                    }
                    if fired_names_spec(fs.take(k + 1)).contains(n) {
                        let i = choose|i: int| 0 <= i < k + 1 && (#[trigger] fs.take(k + 1)[i]).check_name == n;
                        if i < k {
                            assert(fs.take(k as int)[i].check_name == n);
                            assert(fired_names_spec(fs.take(k as int)).contains(n));
                            assert(rv.to_set().contains(n));
                            let m = choose|m: int| 0 <= m < rv.len() && rv[m] == n;
                            if m < p {
                                assert(nv[m] == n);
                            } else {
                                assert(nv[m + 1] == n);
                            }
                        } else {
                            assert(nv[p as int] == n);
                        }
                    }
                }
                assert(nv.to_set() =~= fired_names_spec(fs.take(k + 1)));
            }
        } else {
            proof {
                assert forall|n: Seq<char>| rv.to_set().contains(n) <==> fired_names_spec(
                    fs.take(k + 1),
                ).contains(n) by {
                    if fired_names_spec(fs.take(k + 1)).contains(n) {
                        let i = choose|i: int| 0 <= i < k + 1 && (#[trigger] fs.take(k + 1)[i]).check_name == n;
                        if i < k {
                            assert(fs.take(k as int)[i].check_name == n);
                            assert(fired_names_spec(fs.take(k as int)).contains(n));
                        } else {
                            assert(rv[p as int] == n);
                        }
                    }
                    if rv.to_set().contains(n) {
                        assert(fired_names_spec(fs.take(k as int)).contains(n));
                        let i = choose|i: int| 0 <= i < k && (#[trigger] fs.take(k as int)[i]).check_name == n;
                        assert(fs.take(k + 1)[i].check_name == n);
                    }
                }
                assert(rv.to_set() =~= fired_names_spec(fs.take(k + 1)));
            }
        }
        k += 1;
    }
    assert(fs.take(flags.len() as int) =~= fs);
    r
}

// ---------------------------------------------------------------------------
// The plain-text report
// ---------------------------------------------------------------------------

/// `n` spaces.
pub open spec fn spaces(n: nat) -> Seq<char> {
    Seq::new(n, |i: int| ' ')
}

/// `s` followed by spaces up to `w` characters.
pub open spec fn pad_right(s: Seq<char>, w: nat) -> Seq<char> {
    if s.len() >= w {
        s
    } else {
        s + spaces((w - s.len()) as nat)
    }
}

/// `s` preceded by spaces up to `w` characters.
pub open spec fn pad_left(s: Seq<char>, w: nat) -> Seq<char> {
    if s.len() >= w {
        s
    } else {
        spaces((w - s.len()) as nat) + s
    }
}

/// "s" unless the count is one.
pub open spec fn plural(n: nat) -> Seq<char> {
    if n == 1 {
        ""@
    } else {
        "s"@
    }
}

pub open spec fn status_word(passed: bool) -> Seq<char> {
    if passed {
        "PASS"@
    } else {
        "FAIL"@
    }
}

/// The first line: the score out of 100 and the verdict.
pub open spec fn score_line(prefix: Seq<char>, score: u32, passed: bool) -> Seq<char> {
    prefix + "Score: "@ + decimal(score as nat) + "/100  "@ + status_word(passed)
}

/// One line of the per-check breakdown.
pub open spec fn breakdown_line(e: (Seq<char>, CheckScore)) -> Seq<char> {
    "  "@ + pad_right(e.0, 24) + " "@ + pad_left(decimal(e.1.penalty as nat), 3) + "/"@ + pad_right(
        decimal(e.1.max as nat),
        3,
    ) + "  ("@ + decimal(e.1.flags as nat) + " flag"@ + plural(e.1.flags as nat) + ")"@
}

/// The lines of one flag: severity, check and description, then the location
/// when there is one.
pub open spec fn flag_lines(f: FlagView) -> Seq<Seq<char>> {
    let head = "  "@ + pad_right("["@ + f.severity + "]"@, 10) + " "@ + f.check_name + ": "@
        + f.description;
    if f.location.len() == 0 {
        seq![head]
    } else {
        seq![head, spaces(13) + f.location]
    }
}

pub open spec fn all_flag_lines(fs: Seq<FlagView>) -> Seq<Seq<char>>
    decreases fs.len(),
{
    if fs.len() == 0 {
        Seq::empty()
    } else {
        all_flag_lines(fs.drop_last()) + flag_lines(fs.last())
    }
}

/// The closing line: how many flags from how many checks, by severity.
pub open spec fn summary_line(fs: Seq<FlagView>, checks: nat) -> Seq<char> {
    let w = severity_count(fs, "warning"@);
    let i = severity_count(fs, "info"@);
    decimal(fs.len()) + " flag(s) from "@ + decimal(checks) + " check(s): "@ + decimal(w)
        + " warning"@ + plural(w) + ", "@ + decimal(i) + " info"@
}

/// The lines printed for a result: in quiet mode the score line alone;
/// otherwise, after a blank line, either a note that the text is clean or the
/// breakdown, the flags and the summary, each part followed by a blank line.
pub open spec fn report_lines(r: SlopResult, quiet: bool, prefix: Seq<char>) -> Seq<Seq<char>> {
    let head = seq![score_line(prefix, r.score, r.passed)];
    let fs = flags_view(r.flags@);
    if quiet {
        head
    } else if fs.len() == 0 {
        head + seq![""@, "  No flags detected. Text looks clean."@]
    } else {
        head + seq![""@] + scores_view(r.check_scores@).map_values(
            |e: (Seq<char>, CheckScore)| breakdown_line(e),
        ) + seq![""@] + all_flag_lines(fs) + seq![""@, summary_line(fs, r.check_scores@.len())]
    }
}

proof fn lemma_empty_text()
    ensures
        ""@ == Seq::<char>::empty(),
{
    reveal_strlit("");
    assert(""@ =~= Seq::<char>::empty());
}

fn push_spaces(s: &mut String, n: usize)
    ensures
        final(s)@ == old(s)@ + spaces(n as nat),
{
    let mut i: usize = 0;
    while i < n
        invariant
            i <= n,
            s@ == old(s)@ + spaces(i as nat),
        decreases n - i,
    {
        s.push(' ');
        i += 1;
        assert(s@ =~= old(s)@ + spaces(i as nat));
    }
}

fn char_len(s: &str) -> (n: usize)
    ensures
        n == s@.len(),
{
    chars_of(s).len()
}

pub fn push_padded_right(out: &mut String, s: &str, w: usize)
    ensures
        final(out)@ == old(out)@ + pad_right(s@, w as nat),
{
    let n = char_len(s);
    out.append(s);
    if n < w {
        push_spaces(out, w - n);
    }
    assert(out@ =~= old(out)@ + pad_right(s@, w as nat));
}

fn push_padded_left(out: &mut String, s: &str, w: usize)
    ensures
        final(out)@ == old(out)@ + pad_left(s@, w as nat),
{
    let n = char_len(s);
    if n < w {
        push_spaces(out, w - n);
    }
    out.append(s);
    assert(out@ =~= old(out)@ + pad_left(s@, w as nat));
}

fn decimal_text(n: u128) -> (r: String)
    ensures
        r@ == decimal(n as nat),
{
    let mut s = String::new();
    push_decimal(&mut s, n);
    assert(s@ =~= decimal(n as nat)) by {
        reveal_strlit("");
    }
    s
}

fn plural_exec(n: u128) -> (r: &'static str)
    ensures
        r@ == plural(n as nat),
{
    if n == 1 {
        ""
    } else {
        "s"
    }
}

/// The score line of a result, after `prefix` (the file name, when several
/// files are analysed).
pub fn score_text(prefix: &str, score: u32, passed: bool) -> (r: String)
    ensures
        r@ == score_line(prefix@, score, passed),
{
    let mut s = String::new();
    s.append(prefix);
    s.append("Score: ");
    push_decimal(&mut s, score as u128);
    s.append("/100  ");
    s.append(if passed {
        "PASS"
    } else {
        "FAIL"
    });
    assert(s@ =~= score_line(prefix@, score, passed)) by {
        reveal_strlit("");
    }
    s
}

fn breakdown_text(name: &str, cs: CheckScore) -> (r: String)
    ensures
        r@ == breakdown_line((name@, cs)),
{
    let mut s = String::new();
    s.append("  ");
    push_padded_right(&mut s, name, 24);
    s.append(" ");
    push_padded_left(&mut s, decimal_text(cs.penalty as u128).as_str(), 3);
    s.append("/");
    push_padded_right(&mut s, decimal_text(cs.max as u128).as_str(), 3);
    s.append("  (");
    push_decimal(&mut s, cs.flags as u128);
    s.append(" flag");
    s.append(plural_exec(cs.flags as u128));
    s.append(")");
    assert(s@ =~= breakdown_line((name@, cs))) by {
        reveal_strlit("");
    }
    s
}

fn push_flag_lines(lines: &mut Vec<String>, f: &SlopFlag)
    ensures
        strings_view(final(lines)@) == strings_view(old(lines)@) + flag_lines(f@),
{
    let mut sev = String::new();
    sev.append("[");
    sev.append(f.severity.as_str());
    sev.append("]");
    let mut head = String::new();
    head.append("  ");
    push_padded_right(&mut head, sev.as_str(), 10);
    head.append(" ");
    head.append(f.check_name.as_str());
    head.append(": ");
    head.append(f.description.as_str());
    assert(sev@ =~= "["@ + f.severity@ + "]"@) by {
        reveal_strlit("");
    }
    assert(head@ =~= "  "@ + pad_right("["@ + f@.severity + "]"@, 10) + " "@ + f@.check_name
        + ": "@ + f@.description) by {
        reveal_strlit("");
    }
    lines.push(head);
    if char_len(f.location.as_str()) > 0 {
        let mut loc = String::new();
        push_spaces(&mut loc, 13);
        loc.append(f.location.as_str());
        assert(loc@ =~= spaces(13) + f@.location) by {
            reveal_strlit("");
        }
        lines.push(loc);
    }
    assert(strings_view(lines@) =~= strings_view(old(lines)@) + flag_lines(f@));
}

/// The lines to print for a result (see [`report_lines`]).
pub fn report_text(result: &SlopResult, quiet: bool, prefix: &str) -> (r: Vec<String>)
    ensures
        strings_view(r@) == report_lines(*result, quiet, prefix@),
{
    let ghost fs = flags_view(result.flags@);
    let mut lines: Vec<String> = Vec::new();
    lines.push(score_text(prefix, result.score, result.passed));
    let ghost head = seq![score_line(prefix@, result.score, result.passed)];
    assert(strings_view(lines@) =~= head);
    if quiet {
        return lines;
    }
    proof {
        lemma_empty_text();
    }
    if result.flags.len() == 0 {
        lines.push(String::new());
        lines.push("  No flags detected. Text looks clean.".to_owned());
        assert(strings_view(lines@) =~= head + seq![""@, "  No flags detected. Text looks clean."@])
            by {
            reveal_strlit("");
        }
        return lines;
    }
    lines.push(String::new());
    let ghost bl = scores_view(result.check_scores@).map_values(
        |e: (Seq<char>, CheckScore)| breakdown_line(e),
    );
    assert(strings_view(lines@) =~= head + seq![""@]) by {
        reveal_strlit("");
    }
    let mut i: usize = 0;
    while i < result.check_scores.len()
        invariant
            i <= result.check_scores.len(),
            bl == scores_view(result.check_scores@).map_values(
                |e: (Seq<char>, CheckScore)| breakdown_line(e),
            ),
            strings_view(lines@) == head + seq![""@] + bl.take(i as int),
        decreases result.check_scores.len() - i,
    {
        let t = breakdown_text(result.check_scores[i].0.as_str(), result.check_scores[i].1);
        let ghost before = strings_view(lines@);
        assert(bl[i as int] == t@);
        assert(bl.take(i + 1) =~= bl.take(i as int).push(t@));
        lines.push(t);
        assert(strings_view(lines@) =~= before.push(t@));
        i += 1;
        assert(strings_view(lines@) =~= head + seq![""@] + bl.take(i as int));
    }
    assert(bl.take(result.check_scores.len() as int) =~= bl);
    lines.push(String::new());
    let ghost before_flags = strings_view(lines@);
    assert(before_flags =~= head + seq![""@] + bl + seq![""@]) by {
        reveal_strlit("");
    }
    let mut k: usize = 0;
    while k < result.flags.len()
        invariant
            k <= result.flags.len(),
            fs == flags_view(result.flags@),
            strings_view(lines@) == before_flags + all_flag_lines(fs.take(k as int)),
        decreases result.flags.len() - k,
    {
        push_flag_lines(&mut lines, &result.flags[k]);
        proof {
            assert(fs.take(k + 1).drop_last() =~= fs.take(k as int));
            assert(fs.take(k + 1).last() == result.flags@[k as int]@);
        }
        k += 1;
        assert(strings_view(lines@) =~= before_flags + all_flag_lines(fs.take(k as int)));
    }
    assert(fs.take(result.flags.len() as int) =~= fs);
    let w = count_severity(&result.flags, "warning");
    let n_info = count_severity(&result.flags, "info");
    lines.push(String::new());
    let mut sum = String::new();
    push_decimal(&mut sum, result.flags.len() as u128);
    sum.append(" flag(s) from ");
    push_decimal(&mut sum, result.check_scores.len() as u128);
    sum.append(" check(s): ");
    push_decimal(&mut sum, w as u128);
    sum.append(" warning");
    sum.append(plural_exec(w as u128));
    sum.append(", ");
    push_decimal(&mut sum, n_info as u128);
    sum.append(" info");
    assert(sum@ =~= summary_line(fs, result.check_scores@.len())) by {
        reveal_strlit("");
    }
    lines.push(sum);
    assert(strings_view(lines@) =~= report_lines(*result, quiet, prefix@)) by {
        reveal_strlit("");
    }
    lines
}

} // verus!
