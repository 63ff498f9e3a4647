//! Configuration values: the library's own model of a parsed TOML document.
//!
//! A table is a list of `(key, value)` entries; lookups find the entry with the
//! given key. Floats are held as thousandths (the resolution the checks use).
use vstd::prelude::*;
use crate::text::str_eq;
use crate::entries::{
    lookup, key_pos, assign, keys_unique, lemma_key_pos, lemma_assign, lemma_assign_shape,
    lemma_lookup_push, lemma_lookup_absent, lemma_assign_unique,
};

verus! {

/// A TOML float, held exactly to the thousandth.
#[derive(Debug, Clone, Copy, PartialEq, Eq, Structural)]
pub enum FloatValue {
    /// The value times one thousand.
    Finite(i64),
    NotANumber,
    Infinity,
    NegInfinity,
}

/// A TOML value.
#[derive(Debug)]
pub enum TomlValue {
    Str(String),
    Int(i64),
    Float(FloatValue),
    Bool(bool),
    Datetime(String),
    Array(Vec<TomlValue>),
    Table(TomlTable),
}

/// A TOML table: keys with their values.
#[derive(Debug)]
pub struct TomlTable {
    pub entries: Vec<(String, TomlValue)>,
}

/// The plain data of a TOML value.
pub enum TomlData {
    Str(Seq<char>),
    Int(i64),
    Float(FloatValue),
    Bool(bool),
    Datetime(Seq<char>),
    Array(Seq<TomlData>),
    Table(Seq<(Seq<char>, TomlData)>),
}

pub open spec fn data_of(v: TomlValue) -> TomlData
    decreases v,
{
    match v {
        TomlValue::Str(s) => TomlData::Str(s@),
        TomlValue::Int(i) => TomlData::Int(i),
        TomlValue::Float(f) => TomlData::Float(f),
        TomlValue::Bool(b) => TomlData::Bool(b),
        TomlValue::Datetime(s) => TomlData::Datetime(s@),
        TomlValue::Array(a) => TomlData::Array(data_of_seq(a@)),
        TomlValue::Table(t) => TomlData::Table(data_of_entries(t.entries@)),
    }
}

pub open spec fn data_of_seq(s: Seq<TomlValue>) -> Seq<TomlData>
    decreases s,
{
    if s.len() == 0 {
        Seq::empty()
    } else {
        data_of_seq(s.drop_last()).push(data_of(s.last()))
    }
}

pub open spec fn data_of_entries(s: Seq<(String, TomlValue)>) -> Seq<(Seq<char>, TomlData)>
    decreases s,
{
    if s.len() == 0 {
        Seq::empty()
    } else {
        data_of_entries(s.drop_last()).push((s.last().0@, data_of(s.last().1)))
    }
}

/// Position of the first entry with key `key`, if any.
pub open spec fn entry_index(entries: Seq<(String, TomlValue)>, key: Seq<char>) -> Option<int>
    decreases entries.len(),
{
    if entries.len() == 0 {
        None
    } else if entries[0].0@ == key {
        Some(0)
    } else {
        match entry_index(entries.drop_first(), key) {
            Some(i) => Some(i + 1),
            None => None,
        }
    }
}

pub proof fn lemma_entry_index(entries: Seq<(String, TomlValue)>, key: Seq<char>)
    ensures
        entry_index(entries, key) matches Some(i) ==> 0 <= i < entries.len() && entries[i].0@
            == key && forall|j: int| 0 <= j < i ==> (#[trigger] entries[j]).0@ != key,
        entry_index(entries, key) is None ==> forall|j: int|
            0 <= j < entries.len() ==> (#[trigger] entries[j]).0@ != key,
    decreases entries.len(),
{
    if entries.len() > 0 {
        lemma_entry_index(entries.drop_first(), key);
        assert forall|j: int| 1 <= j < entries.len() implies entries[j] == entries.drop_first()[j
            - 1] by {}
    }
}

/// The value under `key` (the first entry with that key).
pub open spec fn table_get(t: TomlTable, key: Seq<char>) -> Option<TomlValue> {
    match entry_index(t.entries@, key) {
        Some(i) => Some(t.entries@[i].1),
        None => None,
    }
}

/// The value under `key` when the table is present.
pub open spec fn param(p: Option<TomlTable>, key: Seq<char>) -> Option<TomlValue> {
    match p {
        Some(t) => table_get(t, key),
        None => None,
    }
}

pub open spec fn as_int(v: Option<TomlValue>) -> Option<i64> {
    match v {
        Some(TomlValue::Int(i)) => Some(i),
        _ => None,
    }
}

pub open spec fn as_float(v: Option<TomlValue>) -> Option<FloatValue> {
    match v {
        Some(TomlValue::Float(f)) => Some(f),
        _ => None,
    }
}

pub open spec fn as_bool(v: Option<TomlValue>) -> Option<bool> {
    match v {
        Some(TomlValue::Bool(b)) => Some(b),
        _ => None,
    }
}

pub open spec fn as_str(v: Option<TomlValue>) -> Option<Seq<char>> {
    match v {
        Some(TomlValue::Str(s)) => Some(s@),
        _ => None,
    }
}

pub open spec fn as_array(v: Option<TomlValue>) -> Option<Seq<TomlValue>> {
    match v {
        Some(TomlValue::Array(a)) => Some(a@),
        _ => None,
    }
}

pub open spec fn as_table(v: Option<TomlValue>) -> Option<TomlTable> {
    match v {
        Some(TomlValue::Table(t)) => Some(t),
        _ => None,
    }
}

/// The string elements of an array, in order (non-strings are skipped).
pub open spec fn strings_of(a: Seq<TomlValue>) -> Seq<Seq<char>>
    decreases a.len(),
{
    if a.len() == 0 {
        Seq::empty()
    } else {
        let rest = strings_of(a.drop_last());
        match a.last() {
            TomlValue::Str(s) => rest.push(s@),
            _ => rest,
        }
    }
}

/// The `[pattern, label]` pairs of an array: each element that is an array of
/// at least two items whose first two are strings.
pub open spec fn entry_pairs(a: Seq<TomlValue>) -> Seq<(Seq<char>, Seq<char>)>
    decreases a.len(),
{
    if a.len() == 0 {
        Seq::empty()
    } else {
        let rest = entry_pairs(a.drop_last());
        match a.last() {
            TomlValue::Array(arr) => if arr@.len() >= 2 {
                match (arr@[0], arr@[1]) {
                    (TomlValue::Str(p), TomlValue::Str(l)) => rest.push((p@, l@)),
                    _ => rest,
                }
            } else {
                rest
            },
            _ => rest,
        }
    }
}

/// The table behind an optional reference.
pub open spec fn opt_table(p: Option<&TomlTable>) -> Option<TomlTable> {
    match p {
        Some(t) => Some(*t),
        None => None,
    }
}

impl TomlTable {
    /// An empty table.
    pub fn new() -> (t: Self)
        ensures
            t.entries@.len() == 0,
            table_data(t).len() == 0,
            table_wf(t),
    {
        TomlTable { entries: Vec::new() }
    }

    /// The value under `key`.
    pub fn get(&self, key: &str) -> (r: Option<&TomlValue>)
        ensures
            match table_get(*self, key@) {
                Some(v) => r matches Some(x) && *x == v,
                None => r is None,
            },
    {
        proof {
            lemma_entry_index(self.entries@, key@);
        }
        let mut i: usize = 0;
        while i < self.entries.len()
            invariant
                i <= self.entries.len(),
                forall|j: int| 0 <= j < i ==> (#[trigger] self.entries@[j]).0@ != key@,
                entry_index(self.entries@, key@) matches Some(k) ==> i <= k,
                entry_index(self.entries@, key@) matches Some(k) ==> 0 <= k < self.entries@.len()
                    && self.entries@[k].0@ == key@,
            decreases self.entries.len() - i,
        {
            if str_eq(self.entries[i].0.as_str(), key) {
                proof {
                    lemma_entry_index(self.entries@, key@);
                }
                return Some(&self.entries[i].1);
            }
            i += 1;
        }
        proof {
            lemma_entry_index(self.entries@, key@);
        }
        None
    }

    /// Whether some entry has key `key`.
    pub fn contains_key(&self, key: &str) -> (b: bool)
        ensures
            b == (table_get(*self, key@) is Some),
    {
        self.get(key).is_some()
    }
}

impl TomlValue {
    pub fn as_integer(&self) -> (r: Option<i64>)
        ensures
            r == as_int(Some(*self)),
    {
        match self {
            TomlValue::Int(i) => Some(*i),
            _ => None,
        }
    }

    pub fn as_float(&self) -> (r: Option<FloatValue>)
        ensures
            r == as_float(Some(*self)),
    {
        match self {
            TomlValue::Float(f) => Some(*f),
            _ => None,
        }
    }

    pub fn as_bool(&self) -> (r: Option<bool>)
        ensures
            r == as_bool(Some(*self)),
    {
        match self {
            TomlValue::Bool(b) => Some(*b),
            _ => None,
        }
    }

    pub fn as_str(&self) -> (r: Option<&str>)
        ensures
            match *self {
                TomlValue::Str(s) => r matches Some(x) && x@ == s@,
                _ => r is None,
            },
    {
        match self {
            TomlValue::Str(s) => Some(s.as_str()),
            _ => None,
        }
    }

    pub fn as_array(&self) -> (r: Option<&Vec<TomlValue>>)
        ensures
            match *self {
                TomlValue::Array(a) => r matches Some(x) && *x == a,
                _ => r is None,
            },
    {
        match self {
            TomlValue::Array(a) => Some(a),
            _ => None,
        }
    }

    pub fn as_table(&self) -> (r: Option<&TomlTable>)
        ensures
            match *self {
                TomlValue::Table(t) => r matches Some(x) && *x == t,
                _ => r is None,
            },
    {
        match self {
            TomlValue::Table(t) => Some(t),
            _ => None,
        }
    }
}

/// The value under `key` of an optional table.
pub fn param_value<'a>(params: Option<&'a TomlTable>, key: &str) -> (r: Option<&'a TomlValue>)
    ensures
        match param(opt_table(params), key@) {
            Some(v) => r matches Some(x) && *x == v,
            None => r is None,
        },
{
    match params {
        Some(t) => t.get(key),
        None => None,
    }
}

/// The `[pattern, label]` pairs of `a`.
pub fn array_pairs(a: &Vec<TomlValue>) -> (r: Vec<(String, String)>)
    ensures
        r@.map_values(|p: (String, String)| (p.0@, p.1@)) == entry_pairs(a@),
{
    let mut r: Vec<(String, String)> = Vec::new();
    let mut i: usize = 0;
    while i < a.len()
        invariant
            i <= a.len(),
            r@.map_values(|p: (String, String)| (p.0@, p.1@)) == entry_pairs(a@.take(i as int)),
        decreases a.len() - i,
    {
        assert(a@.take(i + 1).drop_last() =~= a@.take(i as int));
        assert(a@.take(i + 1).last() == a@[i as int]);
        if let Some(arr) = a[i].as_array() {
            if arr.len() >= 2 {
                if let (Some(p), Some(l)) = (arr[0].as_str(), arr[1].as_str()) {
                    r.push((p.to_owned(), l.to_owned()));
                }
            }
        }
        i += 1;
        assert(r@.map_values(|p: (String, String)| (p.0@, p.1@)) =~= entry_pairs(
            a@.take(i as int),
        ));
    }
    assert(a@.take(a.len() as int) =~= a@);
    r
}

/// The string elements of `a`, in order.
pub fn array_strings(a: &Vec<TomlValue>) -> (r: Vec<String>)
    ensures
        r@.map_values(|s: String| s@) == strings_of(a@),
{
    let mut r: Vec<String> = Vec::new();
    let mut i: usize = 0;
    while i < a.len()
        invariant
            i <= a.len(),
            r@.map_values(|s: String| s@) == strings_of(a@.take(i as int)),
        decreases a.len() - i,
    {
        assert(a@.take(i + 1).drop_last() =~= a@.take(i as int));
        if let Some(s) = a[i].as_str() {
            r.push(s.to_owned());
        }
        i += 1;
        assert(r@.map_values(|s: String| s@) =~= strings_of(a@.take(i as int)));
    }
    assert(a@.take(a.len() as int) =~= a@);
    r
}

// ---------------------------------------------------------------------------
// Plain data of tables: lookup, insertion, copying
// ---------------------------------------------------------------------------

/// The data of a table's entries.
pub open spec fn table_data(t: TomlTable) -> Seq<(Seq<char>, TomlData)> {
    data_of_entries(t.entries@)
}

/// A well-formed table: no key occurs twice.
pub open spec fn table_wf(t: TomlTable) -> bool {
    keys_unique(table_data(t))
}

pub proof fn lemma_data_of_entries_index(s: Seq<(String, TomlValue)>, i: int)
    requires
        0 <= i < s.len(),
    ensures
        data_of_entries(s).len() == s.len(),
        data_of_entries(s)[i] == (s[i].0@, data_of(s[i].1)),
    decreases s.len(),
{
    lemma_data_of_entries_len(s);
    if i < s.len() - 1 {
        lemma_data_of_entries_index(s.drop_last(), i);
    }
}

pub proof fn lemma_data_of_entries_len(s: Seq<(String, TomlValue)>)
    ensures
        data_of_entries(s).len() == s.len(),
    decreases s.len(),
{
    if s.len() > 0 {
        lemma_data_of_entries_len(s.drop_last());
    }
}

proof fn lemma_data_of_seq_index(s: Seq<TomlValue>, i: int)
    requires
        0 <= i < s.len(),
    ensures
        data_of_seq(s).len() == s.len(),
        data_of_seq(s)[i] == data_of(s[i]),
    decreases s.len(),
{
    lemma_data_of_seq_len(s);
    if i < s.len() - 1 {
        lemma_data_of_seq_index(s.drop_last(), i);
    }
}

proof fn lemma_data_of_seq_len(s: Seq<TomlValue>)
    ensures
        data_of_seq(s).len() == s.len(),
    decreases s.len(),
{
    if s.len() > 0 {
        lemma_data_of_seq_len(s.drop_last());
    }
}

/// Equal data of equal-length, pointwise-equal sequences.
proof fn lemma_data_of_seq_ext(a: Seq<TomlValue>, b: Seq<TomlValue>)
    requires
        a.len() == b.len(),
        forall|i: int| 0 <= i < a.len() ==> data_of(#[trigger] a[i]) == data_of(b[i]),
    ensures
        data_of_seq(a) == data_of_seq(b),
{
    lemma_data_of_seq_len(a);
    lemma_data_of_seq_len(b);
    assert forall|i: int| 0 <= i < a.len() implies data_of_seq(a)[i] == data_of_seq(b)[i] by {
        lemma_data_of_seq_index(a, i);
        lemma_data_of_seq_index(b, i);
    }
    assert(data_of_seq(a) =~= data_of_seq(b));
}

proof fn lemma_data_of_entries_ext(a: Seq<(String, TomlValue)>, b: Seq<(String, TomlValue)>)
    requires
        a.len() == b.len(),
        forall|i: int|
            0 <= i < a.len() ==> (#[trigger] a[i]).0@ == b[i].0@ && data_of(a[i].1) == data_of(
                b[i].1,
            ),
    ensures
        data_of_entries(a) == data_of_entries(b),
{
    lemma_data_of_entries_len(a);
    lemma_data_of_entries_len(b);
    assert forall|i: int| 0 <= i < a.len() implies data_of_entries(a)[i] == data_of_entries(b)[i] by {
        lemma_data_of_entries_index(a, i);
        lemma_data_of_entries_index(b, i);
    }
    assert(data_of_entries(a) =~= data_of_entries(b));
}

/// A deep copy of a value.
pub fn copy_value(v: &TomlValue) -> (r: TomlValue)
    ensures
        data_of(r) == data_of(*v),
    decreases v,
{
    match v {
        TomlValue::Str(s) => TomlValue::Str(s.clone()),
        TomlValue::Int(i) => TomlValue::Int(*i),
        TomlValue::Float(f) => TomlValue::Float(*f),
        TomlValue::Bool(b) => TomlValue::Bool(*b),
        TomlValue::Datetime(s) => TomlValue::Datetime(s.clone()),
        TomlValue::Array(a) => {
            let mut out: Vec<TomlValue> = Vec::new();
            let mut i: usize = 0;
            while i < a.len()
                invariant
                    i <= a.len(),
                    *v == TomlValue::Array(*a),
                    out@.len() == i,
                    forall|j: int| 0 <= j < i ==> data_of(#[trigger] out@[j]) == data_of(a@[j]),
                decreases a.len() - i,
            {
                proof {
                    vstd::std_specs::vec::axiom_vec_index_decreases(*a, i as int);
                    let ghost vv = *v;
                    assert(vv == TomlValue::Array(*a));
                    assert(vv->Array_0 == *a);
                    assert(decreases_to!(vv => vv->Array_0));
                }
                let x = copy_value(&a[i]);
                out.push(x);
                i += 1;
            }
            proof {
                lemma_data_of_seq_ext(out@, a@);
            }
            TomlValue::Array(out)
        },
        TomlValue::Table(t) => TomlValue::Table(copy_table(t)),
    }
}

/// A deep copy of a table.
pub fn copy_table(t: &TomlTable) -> (r: TomlTable)
    ensures
        table_data(r) == table_data(*t),
    decreases t,
{
    let mut out: Vec<(String, TomlValue)> = Vec::new();
    let mut i: usize = 0;
    while i < t.entries.len()
        invariant
            i <= t.entries.len(),
            out@.len() == i,
            forall|j: int|
                0 <= j < i ==> (#[trigger] out@[j]).0@ == t.entries@[j].0@ && data_of(out@[j].1)
                    == data_of(t.entries@[j].1),
        decreases t.entries.len() - i,
    {
        let k = t.entries[i].0.clone();
        proof {
            vstd::std_specs::vec::axiom_vec_index_decreases(t.entries, i as int);
            assert(decreases_to!(*t => t.entries));
        }
        let x = copy_value(&t.entries[i].1);
        out.push((k, x));
        i += 1;
    }
    proof {
        lemma_data_of_entries_ext(out@, t.entries@);
    }
    TomlTable { entries: out }
}

proof fn lemma_key_pos_entry_index(s: Seq<(String, TomlValue)>, key: Seq<char>)
    ensures
        key_pos(data_of_entries(s), key) == entry_index(s, key),
        match entry_index(s, key) {
            Some(i) => lookup(data_of_entries(s), key) == Some(data_of(s[i].1)),
            None => lookup(data_of_entries(s), key) is None,
        },
    decreases s.len(),
{
    lemma_data_of_entries_len(s);
    lemma_entry_index(s, key);
    lemma_key_pos(data_of_entries(s), key);
    if s.len() > 0 {
        lemma_data_of_entries_index(s, 0);
        lemma_data_of_entries_drop_first(s);
        lemma_key_pos_entry_index(s.drop_first(), key);
    }
}

proof fn lemma_data_of_entries_drop_first(s: Seq<(String, TomlValue)>)
    requires
        s.len() > 0,
    ensures
        data_of_entries(s.drop_first()) == data_of_entries(s).drop_first(),
{
    lemma_data_of_entries_len(s);
    lemma_data_of_entries_len(s.drop_first());
    assert forall|i: int| 0 <= i < s.len() - 1 implies data_of_entries(s.drop_first())[i]
        == data_of_entries(s).drop_first()[i] by {
        lemma_data_of_entries_index(s.drop_first(), i);
        lemma_data_of_entries_index(s, i + 1);
    }
    assert(data_of_entries(s.drop_first()) =~= data_of_entries(s).drop_first());
}

impl TomlTable {
    /// Sets `key` to `v`: replaces the first entry with that key, or appends one.
    pub fn insert(&mut self, key: String, v: TomlValue)
        ensures
            table_data(*final(self)) == assign(table_data(*old(self)), key@, data_of(v)),
            table_wf(*old(self)) ==> table_wf(*final(self)),
    {
        let ghost k = key@;
        let ghost d = data_of(v);
        proof {
            if table_wf(*old(self)) {
                lemma_assign_unique(table_data(*old(self)), k, d);
            }
            lemma_key_pos_entry_index(old(self).entries@, k);
            lemma_assign_shape(table_data(*old(self)), k, d);
            lemma_entry_index(old(self).entries@, k);
            lemma_data_of_entries_len(old(self).entries@);
        }
        let mut i: usize = 0;
        while i < self.entries.len()
            invariant
                self.entries@ == old(self).entries@,
                k == key@,
                d == data_of(v),
                table_wf(*old(self)) ==> keys_unique(assign(table_data(*old(self)), k, d)),
                i <= self.entries.len(),
                forall|j: int| 0 <= j < i ==> (#[trigger] self.entries@[j]).0@ != k,
                entry_index(self.entries@, k) matches Some(m) ==> i <= m,
                entry_index(self.entries@, k) matches Some(m) ==> 0 <= m < self.entries@.len()
                    && self.entries@[m].0@ == k,
            decreases self.entries.len() - i,
        {
            let same = str_eq(self.entries[i].0.as_str(), key.as_str());
            if same {
                let ghost before = self.entries@;
                proof {
                    lemma_entry_index(before, k);
                }
                self.entries.set(i, (key, v));
                proof {
                    assert(entry_index(before, k) == Some(i as int));
                    lemma_key_pos_entry_index(before, k);
                    lemma_assign_shape(table_data(*old(self)), k, d);
                    lemma_data_of_entries_len(before);
                    lemma_data_of_entries_len(self.entries@);
                    assert forall|j: int| 0 <= j < self.entries@.len() implies table_data(*self)[j]
                        == table_data(*old(self)).update(i as int, (k, d))[j] by {
                        lemma_data_of_entries_index(self.entries@, j);
                        lemma_data_of_entries_index(before, j);
                    }
                    assert(table_data(*self) =~= table_data(*old(self)).update(i as int, (k, d)));
                }
                return;
            }
            assert(self.entries@[i as int].0@ != k);
            i += 1;
        }
        let ghost before = self.entries@;
        self.entries.push((key, v));
        proof {
            assert(entry_index(before, k) is None);
            assert(self.entries@.drop_last() =~= before);
            assert(table_data(*self) =~= table_data(*old(self)).push((k, d)));
        }
    }
}

/// The data of entries with one more entry at the end.
pub proof fn lemma_data_of_entries_push(s: Seq<(String, TomlValue)>, e: (String, TomlValue))
    ensures
        data_of_entries(s.push(e)) == data_of_entries(s).push((e.0@, data_of(e.1))),
{
    assert(s.push(e).drop_last() =~= s);
}

/// A table lookup read on the table's data.
pub proof fn lemma_table_get_data(t: TomlTable, key: Seq<char>)
    ensures
        match table_get(t, key) {
            Some(v) => lookup(table_data(t), key) == Some(data_of(v)),
            None => lookup(table_data(t), key) is None,
        },
{
    lemma_key_pos_entry_index(t.entries@, key);
}

/// Deep merge of table data: the entries of `over` in turn set their key in the
/// accumulated `base`; where both sides hold a table the two are merged, anything
/// else (arrays included) is replaced.
pub open spec fn merge_data(base: Seq<(Seq<char>, TomlData)>, over: Seq<(Seq<char>, TomlData)>) -> Seq<
    (Seq<char>, TomlData),
>
    decreases over,
{
    if over.len() == 0 {
        base
    } else {
        let acc = merge_data(base, over.drop_last());
        let k = over.last().0;
        let v = over.last().1;
        let nv = match (lookup(acc, k), v) {
            (Some(TomlData::Table(bt)), TomlData::Table(ot)) => TomlData::Table(merge_data(bt, ot)),
            _ => v,
        };
        assign(acc, k, nv)
    }
}

/// Deep merge read key by key: a key that `over` does not hold keeps its value
/// from `base`; a key that both hold as tables holds the merge of the two
/// tables; any other key of `over` takes the value from `over` (an array
/// replaces an array).
pub proof fn law_merge_lookup(
    base: Seq<(Seq<char>, TomlData)>,
    over: Seq<(Seq<char>, TomlData)>,
    k: Seq<char>,
)
    requires
        keys_unique(over),
    ensures
        lookup(merge_data(base, over), k) == match (lookup(base, k), lookup(over, k)) {
            (_, None) => lookup(base, k),
            (Some(TomlData::Table(bt)), Some(TomlData::Table(ot))) => Some(
                TomlData::Table(merge_data(bt, ot)),
            ),
            (_, Some(v)) => Some(v),
        },
    decreases over.len(),
{
    if over.len() > 0 {
        let rest = over.drop_last();
        let e = over.last();
        assert(keys_unique(rest)) by {
            assert forall|i: int, j: int| 0 <= i < j < rest.len() implies (#[trigger] rest[i]).0
                != (#[trigger] rest[j]).0 by {
                assert(rest[i] == over[i] && rest[j] == over[j]);
            }
        }
        law_merge_lookup(base, rest, k);
        law_merge_lookup(base, rest, e.0);
        assert(over =~= rest.push(e));
        lemma_lookup_push(rest, e, k);
        let acc = merge_data(base, rest);
        let nv = match (lookup(acc, e.0), e.1) {
            (Some(TomlData::Table(bt)), TomlData::Table(ot)) => TomlData::Table(merge_data(bt, ot)),
            _ => e.1,
        };
        assert(merge_data(base, over) == assign(acc, e.0, nv));
        lemma_assign(acc, e.0, nv, k);
        if k == e.0 {
            assert forall|j: int| 0 <= j < rest.len() implies (#[trigger] rest[j]).0 != e.0 by {
                assert(rest[j] == over[j]);
                assert(over[over.len() - 1] == e);
            }
            lemma_lookup_absent(rest, e.0);
        }
    }
}

/// The keys of a merge are the keys of the base together with the keys of the
/// override: a key is found in the merge exactly when it is found in either.
pub proof fn law_merge_keys(
    base: Seq<(Seq<char>, TomlData)>,
    over: Seq<(Seq<char>, TomlData)>,
    k: Seq<char>,
)
    ensures
        (lookup(merge_data(base, over), k) is Some) == (lookup(base, k) is Some || lookup(
            over,
            k,
        ) is Some),
    decreases over.len(),
{
    if over.len() > 0 {
        let rest = over.drop_last();
        let e = over.last();
        law_merge_keys(base, rest, k);
        assert(over =~= rest.push(e));
        lemma_lookup_push(rest, e, k);
        let acc = merge_data(base, rest);
        let nv = match (lookup(acc, e.0), e.1) {
            (Some(TomlData::Table(bt)), TomlData::Table(ot)) => TomlData::Table(merge_data(bt, ot)),
            _ => e.1,
        };
        assert(merge_data(base, over) == assign(acc, e.0, nv));
        lemma_assign(acc, e.0, nv, k);
    }
}

/// Merging keeps the keys of the base distinct.
pub proof fn lemma_merge_unique(base: Seq<(Seq<char>, TomlData)>, over: Seq<(Seq<char>, TomlData)>)
    requires
        keys_unique(base),
    ensures
        keys_unique(merge_data(base, over)),
    decreases over.len(),
{
    if over.len() > 0 {
        lemma_merge_unique(base, over.drop_last());
        let acc = merge_data(base, over.drop_last());
        let k = over.last().0;
        let v = over.last().1;
        let nv = match (lookup(acc, k), v) {
            (Some(TomlData::Table(bt)), TomlData::Table(ot)) => TomlData::Table(merge_data(bt, ot)),
            _ => v,
        };
        lemma_assign_unique(acc, k, nv);
    }
}

/// Deep-merges two tables: `over` wins on conflicts, nested tables merge,
/// arrays and other values are replaced.
pub fn deep_merge(base: TomlTable, over: &TomlTable) -> (r: TomlTable)
    ensures
        table_data(r) == merge_data(table_data(base), table_data(*over)),
        table_wf(base) ==> table_wf(r),
    decreases over,
{
    proof {
        if table_wf(base) {
            lemma_merge_unique(table_data(base), table_data(*over));
        }
    }
    let ghost b0 = table_data(base);
    let mut acc = base;
    let mut i: usize = 0;
    proof {
        lemma_data_of_entries_len(over.entries@);
    }
    while i < over.entries.len()
        invariant
            i <= over.entries.len(),
            table_data(*over).len() == over.entries@.len(),
            table_data(acc) == merge_data(b0, table_data(*over).take(i as int)),
        decreases over.entries.len() - i,
    {
        let ghost od = table_data(*over);
        proof {
            lemma_data_of_entries_index(over.entries@, i as int);
            assert(od.take(i + 1).drop_last() =~= od.take(i as int));
            assert(od.take(i + 1).last() == od[i as int]);
        }
        let key = &over.entries[i].0;
        let val = &over.entries[i].1;
        proof {
            lemma_key_pos_entry_index(acc.entries@, key@);
        }
        let merged: TomlValue = match (acc.get(key.as_str()), val) {
            (Some(TomlValue::Table(bt)), TomlValue::Table(ot)) => {
                let copy = copy_table(bt);
                proof {
                    vstd::std_specs::vec::axiom_vec_index_decreases(over.entries, i as int);
                    let ghost vv = over.entries@[i as int].1;
                    assert(vv->Table_0 == *ot);
                    assert(decreases_to!(vv => vv->Table_0));
                    assert(decreases_to!(*over => over.entries));
                }
                TomlValue::Table(deep_merge(copy, ot))
            },
            _ => copy_value(val),
        };
        acc.insert(key.clone(), merged);
        i += 1;
    }
    proof {
        assert(table_data(*over).take(over.entries.len() as int) =~= table_data(*over));
    }
    acc
}

} // verus!
