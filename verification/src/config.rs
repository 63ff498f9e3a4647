//! Configuration: per-check settings and the resolved configuration.
use vstd::prelude::*;
use crate::text::{str_eq, strings_view, concat3, decimal, push_decimal};
use crate::report::{sorted_of, sorted_texts};
use crate::entries::{
    lookup, assign, key_pos, keys_unique, lemma_key_pos_at, lemma_assign_shape, lemma_assign,
    lemma_lookup_push, lemma_lookup_absent, lemma_assign_unique,
};
use crate::value::{
    TomlTable, TomlValue, TomlData, table_get, table_data, data_of, data_of_entries, copy_value,
    lemma_table_get_data, lemma_data_of_entries_index, lemma_data_of_entries_len,
    lemma_data_of_entries_push, merge_data, deep_merge, opt_table, law_merge_lookup, table_wf,
    lemma_entry_index,
};

verus! {

/// Configuration for a single check.
#[derive(Debug)]
pub struct CheckConfig {
    pub enabled: bool,
    pub penalty_per_flag: u32,
    pub max_penalty: u32,
    pub severity: String,
    pub params: TomlTable,
}

/// Fully resolved configuration: the pass threshold and the settings of each
/// named check.
#[derive(Debug)]
pub struct Config {
    pub threshold: u32,
    pub checks: Vec<(String, CheckConfig)>,
}

/// Position of the first check entry named `name`.
pub open spec fn check_index(checks: Seq<(String, CheckConfig)>, name: Seq<char>) -> Option<int>
    decreases checks.len(),
{
    if checks.len() == 0 {
        None
    } else if checks[0].0@ == name {
        Some(0)
    } else {
        match check_index(checks.drop_first(), name) {
            Some(i) => Some(i + 1),
            None => None,
        }
    }
}

pub proof fn lemma_check_index(checks: Seq<(String, CheckConfig)>, name: Seq<char>)
    ensures
        check_index(checks, name) matches Some(i) ==> 0 <= i < checks.len() && checks[i].0@
            == name && forall|j: int| 0 <= j < i ==> (#[trigger] checks[j]).0@ != name,
        check_index(checks, name) is None ==> forall|j: int|
            0 <= j < checks.len() ==> (#[trigger] checks[j]).0@ != name,
    decreases checks.len(),
{
    if checks.len() > 0 {
        lemma_check_index(checks.drop_first(), name);
        assert forall|j: int| 1 <= j < checks.len() implies checks[j] == checks.drop_first()[j
            - 1] by {}
    }
}

/// The settings of the check named `name`.
pub open spec fn config_get(c: Config, name: Seq<char>) -> Option<CheckConfig> {
    match check_index(c.checks@, name) {
        Some(i) => Some(c.checks@[i].1),
        None => None,
    }
}

/// The configuration behind an optional reference.
pub open spec fn opt_config(c: Option<&Config>) -> Option<Config> {
    match c {
        Some(x) => Some(*x),
        None => None,
    }
}

impl Config {
    /// The settings of the check named `name`.
    pub fn get(&self, name: &str) -> (r: Option<&CheckConfig>)
        ensures
            match config_get(*self, name@) {
                Some(cc) => r matches Some(x) && *x == cc,
                None => r is None,
            },
    {
        let mut i: usize = 0;
        while i < self.checks.len()
            invariant
                i <= self.checks.len(),
                forall|j: int| 0 <= j < i ==> (#[trigger] self.checks@[j]).0@ != name@,
            decreases self.checks.len() - i,
        {
            if str_eq(self.checks[i].0.as_str(), name) {
                proof {
                    lemma_check_index(self.checks@, name@);
                }
                return Some(&self.checks[i].1);
            }
            i += 1;
        }
        proof {
            lemma_check_index(self.checks@, name@);
        }
        None
    }
}


// ---------------------------------------------------------------------------
// Plain data of a configuration
// ---------------------------------------------------------------------------

/// The settings of one check as plain data.
pub struct CheckData {
    pub enabled: bool,
    pub penalty_per_flag: u32,
    pub max_penalty: u32,
    pub severity: Seq<char>,
    pub params: Seq<(Seq<char>, TomlData)>,
}

pub open spec fn check_data(cc: CheckConfig) -> CheckData {
    CheckData {
        enabled: cc.enabled,
        penalty_per_flag: cc.penalty_per_flag,
        max_penalty: cc.max_penalty,
        severity: cc.severity@,
        params: table_data(cc.params),
    }
}

/// The named check settings of a configuration, as plain data.
pub open spec fn config_checks(c: Config) -> Seq<(Seq<char>, CheckData)> {
    c.checks@.map_values(|e: (String, CheckConfig)| (e.0@, check_data(e.1)))
}

/// A well-formed configuration: no check name occurs twice.
pub open spec fn config_wf(c: Config) -> bool {
    keys_unique(config_checks(c))
}

/// The keys that configure how a check is scored rather than what it looks for.
pub open spec fn is_meta_key(k: Seq<char>) -> bool {
    k == "enabled"@ || k == "penalty_per_flag"@ || k == "max_penalty"@ || k == "severity"@
}

/// The entries whose keys are not meta keys, in order.
pub open spec fn non_meta(es: Seq<(Seq<char>, TomlData)>) -> Seq<(Seq<char>, TomlData)>
    decreases es.len(),
{
    if es.len() == 0 {
        Seq::empty()
    } else {
        let r = non_meta(es.drop_last());
        if is_meta_key(es.last().0) {
            r
        } else {
            r.push(es.last())
        }
    }
}

/// An integer setting truncated to `u32`, or `default` when it is not an integer.
pub open spec fn int_or(d: Option<TomlData>, default: u32) -> u32 {
    match d {
        Some(TomlData::Int(i)) => i as u32,
        _ => default,
    }
}

/// The settings that a check's table gives: `enabled` (default true),
/// `penalty_per_flag` (default 10), `max_penalty` (default 20), `severity`
/// (default "warning"), and every other entry as a parameter.
pub open spec fn parsed_check(ct: Seq<(Seq<char>, TomlData)>) -> CheckData {
    CheckData {
        enabled: match lookup(ct, "enabled"@) {
            Some(TomlData::Bool(b)) => b,
            _ => true,
        },
        penalty_per_flag: int_or(lookup(ct, "penalty_per_flag"@), 10),
        max_penalty: int_or(lookup(ct, "max_penalty"@), 20),
        severity: match lookup(ct, "severity"@) {
            Some(TomlData::Str(s)) => s,
            _ => "warning"@,
        },
        params: non_meta(ct),
    }
}

/// The checks that the entries of a `[checks]` table give, in order: each entry
/// whose value is a table sets the check of that name.
pub open spec fn parsed_checks(es: Seq<(Seq<char>, TomlData)>) -> Seq<(Seq<char>, CheckData)>
    decreases es.len(),
{
    if es.len() == 0 {
        Seq::empty()
    } else {
        let acc = parsed_checks(es.drop_last());
        match es.last().1 {
            TomlData::Table(ct) => assign(acc, es.last().0, parsed_check(ct)),
            _ => acc,
        }
    }
}

/// The threshold of a raw configuration: `general.threshold`, else 30.
pub open spec fn parsed_threshold(raw: Seq<(Seq<char>, TomlData)>) -> u32 {
    match lookup(raw, "general"@) {
        Some(TomlData::Table(g)) => int_or(lookup(g, "threshold"@), 30),
        _ => 30,
    }
}

/// The checks of a raw configuration: those of its `checks` table.
pub open spec fn parsed_config_checks(raw: Seq<(Seq<char>, TomlData)>) -> Seq<
    (Seq<char>, CheckData),
> {
    match lookup(raw, "checks"@) {
        Some(TomlData::Table(c)) => parsed_checks(c),
        _ => Seq::empty(),
    }
}

/// Whether `c` is the configuration that `raw` describes.
pub open spec fn parses_to(c: Config, raw: Seq<(Seq<char>, TomlData)>) -> bool {
    &&& c.threshold == parsed_threshold(raw)
    &&& config_checks(c) == parsed_config_checks(raw)
}

fn is_meta(k: &str) -> (b: bool)
    ensures
        b == is_meta_key(k@),
{
    str_eq(k, "enabled") || str_eq(k, "penalty_per_flag") || str_eq(k, "max_penalty") || str_eq(
        k,
        "severity",
    )
}

/// The integer under `key`, truncated to `u32`, or `default`.
fn int_setting(t: &TomlTable, key: &str, default: u32) -> (r: u32)
    ensures
        r == int_or(lookup(table_data(*t), key@), default),
{
    proof {
        lemma_table_get_data(*t, key@);
    }
    match t.get(key) {
        Some(v) => match v.as_integer() {
            Some(i) => {
                #[verifier::truncate]
                (i as u32)
            },
            None => default,
        },
        None => default,
    }
}

/// The settings of one check from its table.
pub fn parse_check(ct: &TomlTable) -> (r: CheckConfig)
    ensures
        check_data(r) == parsed_check(table_data(*ct)),
        table_wf(*ct) ==> table_wf(r.params),
{
    proof {
        lemma_table_get_data(*ct, "enabled"@);
        lemma_table_get_data(*ct, "severity"@);
    }
    let enabled = match ct.get("enabled") {
        Some(v) => match v.as_bool() {
            Some(b) => b,
            None => true,
        },
        None => true,
    };
    let penalty_per_flag = int_setting(ct, "penalty_per_flag", 10);
    let max_penalty = int_setting(ct, "max_penalty", 20);
    let severity = match ct.get("severity") {
        Some(v) => match v.as_str() {
            Some(s) => s.to_owned(),
            None => "warning".to_owned(),
        },
        None => "warning".to_owned(),
    };
    let ghost cd = table_data(*ct);
    proof {
        lemma_data_of_entries_len(ct.entries@);
    }
    let mut params = TomlTable::new();
    let mut i: usize = 0;
    while i < ct.entries.len()
        invariant
            i <= ct.entries.len(),
            cd == table_data(*ct),
            cd.len() == ct.entries@.len(),
            table_data(params) == non_meta(cd.take(i as int)),
        decreases ct.entries.len() - i,
    {
        proof {
            lemma_data_of_entries_index(ct.entries@, i as int);
            assert(cd.take(i + 1).drop_last() =~= cd.take(i as int));
            assert(cd.take(i + 1).last() == cd[i as int]);
        }
        if !is_meta(ct.entries[i].0.as_str()) {
            let k = ct.entries[i].0.clone();
            let v = copy_value(&ct.entries[i].1);
            let ghost before = params.entries@;
            params.entries.push((k, v));
            proof {
                lemma_data_of_entries_push(before, (k, v));
            }
        }
        i += 1;
    }
    proof {
        assert(cd.take(ct.entries.len() as int) =~= cd);
        if table_wf(*ct) {
            lemma_non_meta_unique(cd);
        }
    }
    CheckConfig { enabled, penalty_per_flag, max_penalty, severity, params }
}

impl Config {
    /// Sets the check named `name`: replaces the first entry with that name, or
    /// appends one.
    pub fn insert(&mut self, name: String, cc: CheckConfig)
        ensures
            final(self).threshold == old(self).threshold,
            config_checks(*final(self)) == assign(config_checks(*old(self)), name@, check_data(cc)),
            config_wf(*old(self)) ==> config_wf(*final(self)),
    {
        proof {
            if config_wf(*self) {
                lemma_assign_unique(config_checks(*self), name@, check_data(cc));
            }
        }
        let ghost cs = config_checks(*self);
        let ghost n = name@;
        let mut i: usize = 0;
        while i < self.checks.len()
            invariant
                i <= self.checks.len(),
                *self == *old(self),
                cs == config_checks(*self),
                n == name@,
                keys_unique(cs) ==> keys_unique(assign(cs, n, check_data(cc))),
                forall|j: int| 0 <= j < i ==> (#[trigger] self.checks@[j]).0@ != n,
            decreases self.checks.len() - i,
        {
            if str_eq(self.checks[i].0.as_str(), name.as_str()) {
                proof {
                    assert forall|j: int| 0 <= j < i implies (#[trigger] cs[j]).0 != n by {
                        assert(cs[j].0 == self.checks@[j].0@);
                    }
                    lemma_key_pos_at(cs, n, i as int);
                    lemma_assign_shape(cs, n, check_data(cc));
                }
                self.checks.set(i, (name, cc));
                proof {
                    assert(config_checks(*self) =~= cs.update(i as int, (n, check_data(cc))));
                }
                return;
            }
            i += 1;
        }
        proof {
            assert forall|j: int| 0 <= j < cs.len() implies (#[trigger] cs[j]).0 != n by {
                assert(cs[j].0 == self.checks@[j].0@);
            }
            lemma_key_pos_at(cs, n, cs.len() as int);
            lemma_assign_shape(cs, n, check_data(cc));
        }
        self.checks.push((name, cc));
        proof {
            assert(config_checks(*self) =~= cs.push((n, check_data(cc))));
        }
    }
}

/// The configuration that a raw table describes.
pub fn parse_config(raw: &TomlTable) -> (r: Config)
    ensures
        parses_to(r, table_data(*raw)),
        config_wf(r),
{
    proof {
        lemma_parsed_config_unique(table_data(*raw));
    }
    proof {
        lemma_table_get_data(*raw, "general"@);
        lemma_table_get_data(*raw, "checks"@);
    }
    let threshold = match raw.get("general") {
        Some(g) => match g.as_table() {
            Some(gt) => int_setting(gt, "threshold", 30),
            None => 30,
        },
        None => 30,
    };
    let mut config = Config { threshold, checks: Vec::new() };
    proof {
        assert(config_checks(config) =~= Seq::<(Seq<char>, CheckData)>::empty());
    }
    match raw.get("checks") {
        Some(cv) => match cv.as_table() {
            Some(cks) => {
                let ghost cd = table_data(*cks);
                proof {
                    lemma_data_of_entries_len(cks.entries@);
                }
                let mut i: usize = 0;
                while i < cks.entries.len()
                    invariant
                        i <= cks.entries.len(),
                        cd == table_data(*cks),
                        cd.len() == cks.entries@.len(),
                        config.threshold == threshold,
                        config_checks(config) == parsed_checks(cd.take(i as int)),
                    decreases cks.entries.len() - i,
                {
                    proof {
                        lemma_data_of_entries_index(cks.entries@, i as int);
                        assert(cd.take(i + 1).drop_last() =~= cd.take(i as int));
                        assert(cd.take(i + 1).last() == cd[i as int]);
                    }
                    match cks.entries[i].1.as_table() {
                        Some(ct) => {
                            let cc = parse_check(ct);
                            config.insert(cks.entries[i].0.clone(), cc);
                        },
                        None => {},
                    }
                    i += 1;
                }
                proof {
                    assert(cd.take(cks.entries.len() as int) =~= cd);
                }
            },
            None => {},
        },
        None => {},
    }
    config
}

/// `d` with `enabled` set to `b`.
pub open spec fn with_enabled(d: CheckData, b: bool) -> CheckData {
    CheckData { enabled: b, ..d }
}

/// The checks with only the one named `name` enabled.
pub open spec fn only_enabled(cs: Seq<(Seq<char>, CheckData)>, name: Seq<char>) -> Seq<
    (Seq<char>, CheckData),
> {
    cs.map_values(|e: (Seq<char>, CheckData)| (e.0, with_enabled(e.1, e.0 == name)))
}

/// The checks with those named `name` disabled.
pub open spec fn disabled(cs: Seq<(Seq<char>, CheckData)>, name: Seq<char>) -> Seq<
    (Seq<char>, CheckData),
> {
    cs.map_values(
        |e: (Seq<char>, CheckData)|
            if e.0 == name {
                (e.0, with_enabled(e.1, false))
            } else {
                e
            },
    )
}

/// The checks with each of `names` disabled in turn.
pub open spec fn disabled_all(cs: Seq<(Seq<char>, CheckData)>, names: Seq<Seq<char>>) -> Seq<
    (Seq<char>, CheckData),
>
    decreases names.len(),
{
    if names.len() == 0 {
        cs
    } else {
        disabled(disabled_all(cs, names.drop_last()), names.last())
    }
}

/// The checks after the command-line overrides: `only` (when given) enables
/// just that check, then each of `names` is disabled.
pub open spec fn overridden(
    cs: Seq<(Seq<char>, CheckData)>,
    only: Option<Seq<char>>,
    names: Seq<Seq<char>>,
) -> Seq<(Seq<char>, CheckData)> {
    let start = match only {
        Some(n) => only_enabled(cs, n),
        None => cs,
    };
    disabled_all(start, names)
}

impl Default for CheckConfig {
    /// Enabled, 10 per flag, at most 20, severity "warning", no parameters.
    fn default() -> (r: Self)
        ensures
            r.enabled,
            r.penalty_per_flag == 10,
            r.max_penalty == 20,
            r.severity@ == "warning"@,
            table_data(r.params).len() == 0,
    {
        CheckConfig {
            enabled: true,
            penalty_per_flag: 10,
            max_penalty: 20,
            severity: "warning".to_owned(),
            params: TomlTable::new(),
        }
    }
}

impl Default for Config {
    /// Threshold 30 and no checks.
    fn default() -> (r: Self)
        ensures
            r.threshold == 30,
            r.checks@.len() == 0,
            config_wf(r),
    {
        Config { threshold: 30, checks: Vec::new() }
    }
}

impl Config {
    /// Enables the check named `name` and disables every other one.
    pub fn enable_only(&mut self, name: &str)
        ensures
            final(self).threshold == old(self).threshold,
            config_checks(*final(self)) == only_enabled(config_checks(*old(self)), name@),
            config_wf(*old(self)) ==> config_wf(*final(self)),
    {
        let ghost cs = config_checks(*self);
        let ghost f = |e: (Seq<char>, CheckData)| (e.0, with_enabled(e.1, e.0 == name@));
        let mut i: usize = 0;
        while i < self.checks.len()
            invariant
                i <= self.checks.len(),
                self.threshold == old(self).threshold,
                cs == config_checks(*old(self)),
                f == (|e: (Seq<char>, CheckData)| (e.0, with_enabled(e.1, e.0 == name@))),
                self.checks@.len() == cs.len(),
                forall|j: int| 0 <= j < i ==> (#[trigger] config_checks(*self)[j]) == f(cs[j]),
                forall|j: int| i <= j < cs.len() ==> (#[trigger] config_checks(*self)[j]) == cs[j],
            decreases self.checks.len() - i,
        {
            let on = str_eq(self.checks[i].0.as_str(), name);
            let ghost prev = self.checks@;
            let ghost pc = config_checks(*self);
            self.checks[i].1.enabled = on;
            proof {
                assert(self.checks@.len() == prev.len());
                assert(self.checks@[i as int].0 == prev[i as int].0);
                assert(check_data(self.checks@[i as int].1) == with_enabled(
                    check_data(prev[i as int].1),
                    on,
                ));
                assert forall|j: int| 0 <= j < prev.len() && j != i implies self.checks@[j]
                    == prev[j] by {}
                assert forall|j: int| 0 <= j < cs.len() implies (#[trigger] config_checks(*self)[j])
                    == if j == i {
                    f(cs[j])
                } else {
                    pc[j]
                } by {
                    assert(pc[j] == (prev[j].0@, check_data(prev[j].1)));
                    assert(config_checks(*self)[j] == (self.checks@[j].0@, check_data(
                        self.checks@[j].1,
                    )));
                    if j != i {
                        assert(self.checks@[j] == prev[j]);
                    }
                }
            }
            i += 1;
        }
        proof {
            assert(config_checks(*self) =~= only_enabled(cs, name@));
            lemma_same_names(cs, config_checks(*self));
        }
    }

    /// Disables every check named `name`; the others are unchanged.
    pub fn disable(&mut self, name: &str)
        ensures
            final(self).threshold == old(self).threshold,
            config_checks(*final(self)) == disabled(config_checks(*old(self)), name@),
            config_wf(*old(self)) ==> config_wf(*final(self)),
    {
        let ghost cs = config_checks(*self);
        let ghost f = |e: (Seq<char>, CheckData)|
            if e.0 == name@ {
                (e.0, with_enabled(e.1, false))
            } else {
                e
            };
        let mut i: usize = 0;
        while i < self.checks.len()
            invariant
                i <= self.checks.len(),
                self.threshold == old(self).threshold,
                cs == config_checks(*old(self)),
                f == (|e: (Seq<char>, CheckData)|
                    if e.0 == name@ {
                        (e.0, with_enabled(e.1, false))
                    } else {
                        e
                    }),
                self.checks@.len() == cs.len(),
                forall|j: int| 0 <= j < i ==> (#[trigger] config_checks(*self)[j]) == f(cs[j]),
                forall|j: int| i <= j < cs.len() ==> (#[trigger] config_checks(*self)[j]) == cs[j],
            decreases self.checks.len() - i,
        {
            if str_eq(self.checks[i].0.as_str(), name) {
                let ghost prev = self.checks@;
                let ghost pc = config_checks(*self);
                self.checks[i].1.enabled = false;
                proof {
                    assert(self.checks@.len() == prev.len());
                    assert(self.checks@[i as int].0 == prev[i as int].0);
                    assert(check_data(self.checks@[i as int].1) == with_enabled(
                        check_data(prev[i as int].1),
                        false,
                    ));
                    assert forall|j: int| 0 <= j < prev.len() && j != i implies self.checks@[j]
                        == prev[j] by {}
                    assert forall|j: int| 0 <= j < cs.len() implies (#[trigger] config_checks(*self)[j])
                        == if j == i {
                        f(cs[j])
                    } else {
                        pc[j]
                    } by {
                        assert(pc[j] == (prev[j].0@, check_data(prev[j].1)));
                        assert(config_checks(*self)[j] == (self.checks@[j].0@, check_data(
                            self.checks@[j].1,
                        )));
                        if j != i {
                            assert(self.checks@[j] == prev[j]);
                        }
                    }
                }
            }
            i += 1;
        }
        proof {
            assert(config_checks(*self) =~= disabled(cs, name@));
            lemma_same_names(cs, config_checks(*self));
        }
    }

    /// Applies the command-line overrides: `only` (when given) enables just that
    /// check, then each of `names` is disabled.
    pub fn apply_overrides(&mut self, only: Option<&str>, names: &Vec<String>)
        ensures
            final(self).threshold == old(self).threshold,
            config_checks(*final(self)) == overridden(
                config_checks(*old(self)),
                match only {
                    Some(n) => Some(n@),
                    None => None,
                },
                strings_view(names@),
            ),
            config_wf(*old(self)) ==> config_wf(*final(self)),
    {
        match only {
            Some(n) => self.enable_only(n),
            None => {},
        }
        let ghost start = config_checks(*self);
        let mut i: usize = 0;
        while i < names.len()
            invariant
                i <= names.len(),
                self.threshold == old(self).threshold,
                config_checks(*self) == disabled_all(start, strings_view(names@).take(i as int)),
                config_wf(*old(self)) ==> config_wf(*self),
            decreases names.len() - i,
        {
            self.disable(names[i].as_str());
            proof {
                let ns = strings_view(names@);
                assert(ns.take(i + 1).drop_last() =~= ns.take(i as int));
                assert(ns.take(i + 1).last() == names@[i as int]@);
            }
            i += 1;
        }
        proof {
            assert(strings_view(names@).take(names.len() as int) =~= strings_view(names@));
        }
    }
}

/// The threshold in effect: the one given on the command line, else the
/// configured one.
pub fn effective_threshold(given: Option<u32>, config: &Config) -> (t: u32)
    ensures
        t == match given {
            Some(x) => x,
            None => config.threshold,
        },
{
    match given {
        Some(x) => x,
        None => config.threshold,
    }
}

/// After the overrides, a check is enabled exactly when `only` names it (or,
/// without `only`, when it was enabled) and no disabled name is its name.
pub proof fn law_overrides_enabled(
    cs: Seq<(Seq<char>, CheckData)>,
    only: Option<Seq<char>>,
    names: Seq<Seq<char>>,
    i: int,
)
    requires
        0 <= i < cs.len(),
    ensures
        overridden(cs, only, names).len() == cs.len(),
        overridden(cs, only, names)[i].0 == cs[i].0,
        overridden(cs, only, names)[i].1.enabled == (match only {
            Some(n) => cs[i].0 == n,
            None => cs[i].1.enabled,
        } && !names.contains(cs[i].0)),
    decreases names.len(),
{
    let start = match only {
        Some(n) => only_enabled(cs, n),
        None => cs,
    };
    lemma_disabled_all(start, names, i);
}

proof fn lemma_disabled_all(cs: Seq<(Seq<char>, CheckData)>, names: Seq<Seq<char>>, i: int)
    requires
        0 <= i < cs.len(),
    ensures
        disabled_all(cs, names).len() == cs.len(),
        disabled_all(cs, names)[i].0 == cs[i].0,
        disabled_all(cs, names)[i].1.enabled == (cs[i].1.enabled && !names.contains(cs[i].0)),
    decreases names.len(),
{
    if names.len() > 0 {
        lemma_disabled_all(cs, names.drop_last(), i);
        let ns = names.drop_last();
        if names.contains(cs[i].0) && !ns.contains(cs[i].0) {
            let j = choose|j: int| 0 <= j < names.len() && names[j] == cs[i].0;
            if j < names.len() - 1 {
                assert(ns[j] == names[j]);
            }
        }
        if ns.contains(cs[i].0) {
            let j = choose|j: int| 0 <= j < ns.len() && ns[j] == cs[i].0;
            assert(names[j] == ns[j]);
        }
        if names.last() == cs[i].0 {
            assert(names[names.len() - 1] == cs[i].0);
        }
    }
}

/// The raw configuration in effect: `base` with `over` merged in, when given.
pub open spec fn effective_raw(base: TomlTable, over: Option<TomlTable>) -> Seq<(Seq<char>, TomlData)> {
    match over {
        Some(o) => merge_data(table_data(base), table_data(o)),
        None => table_data(base),
    }
}

/// Loads the configuration: the built-in defaults `base`, with the project's
/// overrides merged in when there are any.
pub fn load_config(base: TomlTable, over: Option<&TomlTable>) -> (r: Config)
    ensures
        parses_to(r, effective_raw(base, opt_table(over))),
        config_wf(r),
{
    match over {
        Some(o) => {
            let merged = deep_merge(base, o);
            parse_config(&merged)
        },
        None => parse_config(&base),
    }
}

/// Reading the checks of a `[checks]` table: each check name reads the settings
/// that its own table gives, and a name whose value is not a table reads
/// nothing.
pub proof fn law_parsed_checks_lookup(es: Seq<(Seq<char>, TomlData)>, name: Seq<char>)
    requires
        keys_unique(es),
    ensures
        lookup(parsed_checks(es), name) == match lookup(es, name) {
            Some(TomlData::Table(ct)) => Some(parsed_check(ct)),
            _ => None,
        },
    decreases es.len(),
{
    if es.len() > 0 {
        let rest = es.drop_last();
        let e = es.last();
        assert(keys_unique(rest)) by {
            assert forall|i: int, j: int| 0 <= i < j < rest.len() implies (#[trigger] rest[i]).0
                != (#[trigger] rest[j]).0 by {
                assert(rest[i] == es[i] && rest[j] == es[j]);
            }
        }
        law_parsed_checks_lookup(rest, name);
        assert(es =~= rest.push(e));
        lemma_lookup_push(rest, e, name);
        match e.1 {
            TomlData::Table(ct) => {
                lemma_assign(parsed_checks(rest), e.0, parsed_check(ct), name);
            },
            _ => {},
        }
        if name == e.0 {
            assert forall|j: int| 0 <= j < rest.len() implies (#[trigger] rest[j]).0 != e.0 by {
                assert(rest[j] == es[j]);
                assert(es[es.len() - 1] == e);
            }
            lemma_lookup_absent(rest, e.0);
        }
    }
}

/// The `general.threshold` of a project's overrides is the threshold of the
/// merged configuration, whatever the defaults hold.
pub proof fn law_override_threshold(
    base: Seq<(Seq<char>, TomlData)>,
    over: Seq<(Seq<char>, TomlData)>,
    general: Seq<(Seq<char>, TomlData)>,
    t: i64,
)
    requires
        keys_unique(over),
        keys_unique(general),
        lookup(over, "general"@) == Some(TomlData::Table(general)),
        lookup(general, "threshold"@) == Some(TomlData::Int(t)),
    ensures
        parsed_threshold(merge_data(base, over)) == t as u32,
{
    law_merge_lookup(base, over, "general"@);
    match lookup(base, "general"@) {
        Some(TomlData::Table(bg)) => {
            law_merge_lookup(bg, general, "threshold"@);
        },
        _ => {},
    }
}

/// Two sequences of entries with the same keys, position by position.
proof fn lemma_same_names(a: Seq<(Seq<char>, CheckData)>, b: Seq<(Seq<char>, CheckData)>)
    requires
        a.len() == b.len(),
        forall|i: int| 0 <= i < a.len() ==> (#[trigger] a[i]).0 == b[i].0,
    ensures
        keys_unique(a) ==> keys_unique(b),
{
    if keys_unique(a) {
        assert forall|i: int, j: int| 0 <= i < j < b.len() implies (#[trigger] b[i]).0
            != (#[trigger] b[j]).0 by {
            assert(a[i].0 == b[i].0 && a[j].0 == b[j].0);
        }
    }
}

/// Every entry that `non_meta` keeps is an entry of the input.
proof fn lemma_non_meta_sub(es: Seq<(Seq<char>, TomlData)>)
    ensures
        forall|i: int|
            0 <= i < non_meta(es).len() ==> exists|j: int|
                0 <= j < es.len() && es[j] == #[trigger] non_meta(es)[i],
    decreases es.len(),
{
    if es.len() > 0 {
        let p = es.drop_last();
        lemma_non_meta_sub(p);
        assert forall|i: int| 0 <= i < non_meta(es).len() implies exists|j: int|
            0 <= j < es.len() && es[j] == #[trigger] non_meta(es)[i] by {
            if i < non_meta(p).len() {
                let j = choose|j: int| 0 <= j < p.len() && p[j] == non_meta(p)[i];
                assert(es[j] == p[j]);
            } else {
                assert(es[es.len() - 1] == non_meta(es)[i]);
            }
        }
    }
}

/// `non_meta` keeps keys distinct.
proof fn lemma_non_meta_unique(es: Seq<(Seq<char>, TomlData)>)
    requires
        keys_unique(es),
    ensures
        keys_unique(non_meta(es)),
    decreases es.len(),
{
    if es.len() > 0 {
        let p = es.drop_last();
        assert(keys_unique(p)) by {
            assert forall|i: int, j: int| 0 <= i < j < p.len() implies (#[trigger] p[i]).0
                != (#[trigger] p[j]).0 by {
                assert(p[i] == es[i] && p[j] == es[j]);
            }
        }
        lemma_non_meta_unique(p);
        lemma_non_meta_sub(p);
        let r = non_meta(es);
        if !is_meta_key(es.last().0) {
            assert forall|i: int, j: int| 0 <= i < j < r.len() implies (#[trigger] r[i]).0
                != (#[trigger] r[j]).0 by {
                if j == r.len() - 1 {
                    let m = choose|m: int| 0 <= m < p.len() && p[m] == non_meta(p)[i];
                    assert(es[m] == p[m]);
                    assert(es[es.len() - 1] == es.last());
                } else {
                    assert(r[i] == non_meta(p)[i] && r[j] == non_meta(p)[j]);
                }
            }
        }
    }
}

/// The checks read from a raw configuration have distinct names.
proof fn lemma_parsed_config_unique(raw: Seq<(Seq<char>, TomlData)>)
    ensures
        keys_unique(parsed_config_checks(raw)),
{
    match lookup(raw, "checks"@) {
        Some(TomlData::Table(c)) => lemma_parsed_checks_unique(c),
        _ => {},
    }
}

proof fn lemma_parsed_checks_unique(es: Seq<(Seq<char>, TomlData)>)
    ensures
        keys_unique(parsed_checks(es)),
    decreases es.len(),
{
    if es.len() > 0 {
        lemma_parsed_checks_unique(es.drop_last());
        match es.last().1 {
            TomlData::Table(ct) => {
                lemma_assign_unique(parsed_checks(es.drop_last()), es.last().0, parsed_check(ct));
            },
            _ => {},
        }
    }
}

// ---------------------------------------------------------------------------
// Dumping a configuration
// ---------------------------------------------------------------------------

/// One line of a dumped configuration: literal text, or a parameter that is
/// written `key = value` in TOML syntax.
#[derive(Debug)]
pub enum DumpLine {
    Text(String),
    Param(String, TomlValue),
}

/// A dump line as plain data.
pub enum DumpLineView {
    Text(Seq<char>),
    Param(Seq<char>, TomlData),
}

pub open spec fn dump_line_view(d: DumpLine) -> DumpLineView {
    match d {
        DumpLine::Text(s) => DumpLineView::Text(s@),
        DumpLine::Param(k, v) => DumpLineView::Param(k@, data_of(v)),
    }
}

pub open spec fn dump_view(ls: Seq<DumpLine>) -> Seq<DumpLineView> {
    ls.map_values(|d: DumpLine| dump_line_view(d))
}

pub open spec fn bool_text(b: bool) -> Seq<char> {
    if b {
        "true"@
    } else {
        "false"@
    }
}

/// The names of the configured checks.
pub open spec fn check_names(c: Config) -> Set<Seq<char>> {
    c.checks@.map_values(|e: (String, CheckConfig)| e.0@).to_set()
}

/// The keys of a table.
pub open spec fn table_keys(t: TomlTable) -> Set<Seq<char>> {
    t.entries@.map_values(|e: (String, TomlValue)| e.0@).to_set()
}

/// The line of the parameter under `k`.
pub open spec fn param_line(p: TomlTable, k: Seq<char>) -> DumpLineView {
    DumpLineView::Param(k, data_of(table_get(p, k).unwrap()))
}

/// One line per parameter, by increasing key.
pub open spec fn param_lines(p: TomlTable) -> Seq<DumpLineView> {
    sorted_of(table_keys(p)).map_values(|k: Seq<char>| param_line(p, k))
}

/// The section of one check: its header, its four settings, its parameters
/// and a blank line.
pub open spec fn check_lines(name: Seq<char>, cc: CheckConfig) -> Seq<DumpLineView> {
    seq![
        DumpLineView::Text("[checks."@ + name + "]"@),
        DumpLineView::Text("enabled = "@ + bool_text(cc.enabled)),
        DumpLineView::Text("penalty_per_flag = "@ + decimal(cc.penalty_per_flag as nat)),
        DumpLineView::Text("max_penalty = "@ + decimal(cc.max_penalty as nat)),
        DumpLineView::Text("severity = \""@ + cc.severity@ + "\""@),
    ] + param_lines(cc.params) + seq![DumpLineView::Text(""@)]
}

/// The sections of the checks named in `names`, in that order.
pub open spec fn checks_lines(c: Config, names: Seq<Seq<char>>) -> Seq<DumpLineView>
    decreases names.len(),
{
    if names.len() == 0 {
        Seq::empty()
    } else {
        checks_lines(c, names.drop_last()) + check_lines(
            names.last(),
            config_get(c, names.last()).unwrap(),
        )
    }
}

/// The dump of a configuration: the `[general]` section with the threshold,
/// then each check's section by strictly increasing name.
pub open spec fn dump_spec(c: Config) -> Seq<DumpLineView> {
    seq![
        DumpLineView::Text("[general]"@),
        DumpLineView::Text("threshold = "@ + decimal(c.threshold as nat)),
        DumpLineView::Text(""@),
    ] + checks_lines(c, sorted_of(check_names(c)))
}

fn push_dump(lines: &mut Vec<DumpLine>, d: DumpLine)
    ensures
        dump_view(final(lines)@) == dump_view(old(lines)@).push(dump_line_view(d)),
{
    let ghost d0 = d;
    lines.push(d);
    assert(dump_view(lines@) =~= dump_view(old(lines)@).push(dump_line_view(d0)));
}

fn numbered(head: &str, n: u32) -> (s: String)
    ensures
        s@ == head@ + decimal(n as nat),
{
    let mut s = String::from_str(head);
    push_decimal(&mut s, n as u128);
    s
}

fn check_name_list(c: &Config) -> (r: Vec<String>)
    ensures
        strings_view(r@) == c.checks@.map_values(|e: (String, CheckConfig)| e.0@),
{
    let mut r: Vec<String> = Vec::new();
    let mut i: usize = 0;
    while i < c.checks.len()
        invariant
            i <= c.checks.len(),
            strings_view(r@) == c.checks@.take(i as int).map_values(
                |e: (String, CheckConfig)| e.0@,
            ),
        decreases c.checks.len() - i,
    {
        let ghost prev = strings_view(r@);
        r.push(c.checks[i].0.as_str().to_owned());
        assert(strings_view(r@) =~= prev.push(c.checks@[i as int].0@));
        assert(c.checks@.take(i + 1).map_values(|e: (String, CheckConfig)| e.0@) =~= c.checks@.take(
            i as int,
        ).map_values(|e: (String, CheckConfig)| e.0@).push(c.checks@[i as int].0@));
        i += 1;
    }
    assert(c.checks@.take(c.checks.len() as int) =~= c.checks@);
    r
}

fn table_key_list(t: &TomlTable) -> (r: Vec<String>)
    ensures
        strings_view(r@) == t.entries@.map_values(|e: (String, TomlValue)| e.0@),
{
    let mut r: Vec<String> = Vec::new();
    let mut i: usize = 0;
    while i < t.entries.len()
        invariant
            i <= t.entries.len(),
            strings_view(r@) == t.entries@.take(i as int).map_values(
                |e: (String, TomlValue)| e.0@,
            ),
        decreases t.entries.len() - i,
    {
        let ghost prev = strings_view(r@);
        r.push(t.entries[i].0.as_str().to_owned());
        assert(strings_view(r@) =~= prev.push(t.entries@[i as int].0@));
        assert(t.entries@.take(i + 1).map_values(|e: (String, TomlValue)| e.0@) =~= t.entries@.take(
            i as int,
        ).map_values(|e: (String, TomlValue)| e.0@).push(t.entries@[i as int].0@));
        i += 1;
    }
    assert(t.entries@.take(t.entries.len() as int) =~= t.entries@);
    r
}

fn push_param_lines(lines: &mut Vec<DumpLine>, p: &TomlTable)
    ensures
        dump_view(final(lines)@) == dump_view(old(lines)@) + param_lines(*p),
{
    let keys = table_key_list(p);
    let sorted = sorted_texts(&keys);
    let ghost ks = strings_view(sorted@);
    assert(ks == sorted_of(table_keys(*p)));
    let mut i: usize = 0;
    while i < sorted.len()
        invariant
            i <= sorted.len(),
            ks == strings_view(sorted@),
            ks == sorted_of(table_keys(*p)),
            ks.to_set() == table_keys(*p),
            dump_view(lines@) == dump_view(old(lines)@) + ks.take(i as int).map_values(|k: Seq<char>| param_line(*p, k)),
        decreases sorted.len() - i,
    {
        let k = sorted[i].as_str();
        proof {
            assert(ks.to_set().contains(ks[i as int]));
            let pk = p.entries@.map_values(|e: (String, TomlValue)| e.0@);
            let j = choose|j: int| 0 <= j < pk.len() && pk[j] == k@;
            assert(p.entries@[j].0@ == k@);
            lemma_entry_index(p.entries@, k@);
        }
        assert(table_get(*p, k@) is Some);
        let ghost before = dump_view(lines@);
        match p.get(k) {
            Some(v) => {
                let key = k.to_owned();
                let val = copy_value(v);
                assert(key@ == k@);
                assert(*v == table_get(*p, k@).unwrap());
                assert(data_of(val) == data_of(table_get(*p, k@).unwrap()));
                let d = DumpLine::Param(key, val);
                assert(dump_line_view(d) == param_line(*p, k@));
                push_dump(lines, d);
            },
            None => {},
        }
        assert(dump_view(lines@) == before.push(param_line(*p, k@)));
        assert(ks.take(i + 1).map_values(|k: Seq<char>| param_line(*p, k)) =~= ks.take(
            i as int,
        ).map_values(|k: Seq<char>| param_line(*p, k)).push(param_line(*p, k@)));
        assert(dump_view(lines@) =~= dump_view(old(lines)@) + ks.take(i + 1).map_values(
            |k: Seq<char>| param_line(*p, k),
        ));
        i += 1;
    }
    assert(ks.take(sorted.len() as int) =~= ks);
}

fn push_check_lines(lines: &mut Vec<DumpLine>, name: &str, cc: &CheckConfig)
    ensures
        dump_view(final(lines)@) == dump_view(old(lines)@) + check_lines(name@, *cc),
{
    let ghost v0 = dump_view(lines@);
    let head = concat3("[checks.", name, "]");
    let enabled = if cc.enabled {
        "enabled = true".to_owned()
    } else {
        "enabled = false".to_owned()
    };
    proof {
        if cc.enabled {
            assert(enabled@ =~= "enabled = "@ + bool_text(true)) by {
                reveal_strlit("enabled = true");
                reveal_strlit("enabled = ");
                reveal_strlit("true");
            }
        } else {
            assert(enabled@ =~= "enabled = "@ + bool_text(false)) by {
                reveal_strlit("enabled = false");
                reveal_strlit("enabled = ");
                reveal_strlit("false");
            }
        }
    }
    let penalty = numbered("penalty_per_flag = ", cc.penalty_per_flag);
    let max = numbered("max_penalty = ", cc.max_penalty);
    let severity = concat3("severity = \"", cc.severity.as_str(), "\"");
    let ghost five = seq![
        DumpLineView::Text(head@),
        DumpLineView::Text(enabled@),
        DumpLineView::Text(penalty@),
        DumpLineView::Text(max@),
        DumpLineView::Text(severity@),
    ];
    push_dump(lines, DumpLine::Text(head));
    push_dump(lines, DumpLine::Text(enabled));
    push_dump(lines, DumpLine::Text(penalty));
    push_dump(lines, DumpLine::Text(max));
    push_dump(lines, DumpLine::Text(severity));
    assert(dump_view(lines@) =~= v0 + five);
    push_param_lines(lines, &cc.params);
    let blank = String::new();
    proof {
        reveal_strlit("");
        assert(blank@ =~= ""@);
    }
    push_dump(lines, DumpLine::Text(blank));
    assert(dump_view(lines@) =~= v0 + five + param_lines(cc.params) + seq![DumpLineView::Text(""@)]);
    assert(five + param_lines(cc.params) + seq![DumpLineView::Text(""@)] =~= check_lines(name@, *cc));
    assert(dump_view(lines@) =~= dump_view(old(lines)@) + check_lines(name@, *cc));
}

/// The lines of the dump of `config`; `app/` writes each parameter in TOML
/// syntax and joins the lines with newlines.
pub fn dump_lines(config: &Config) -> (r: Vec<DumpLine>)
    ensures
        dump_view(r@) == dump_spec(*config),
{
    let mut lines: Vec<DumpLine> = Vec::new();
    let blank = String::new();
    proof {
        reveal_strlit("");
        assert(blank@ =~= ""@);
    }
    push_dump(&mut lines, DumpLine::Text("[general]".to_owned()));
    push_dump(&mut lines, DumpLine::Text(numbered("threshold = ", config.threshold)));
    push_dump(&mut lines, DumpLine::Text(blank));
    let ghost head = dump_view(lines@);
    assert(head =~= seq![
        DumpLineView::Text("[general]"@),
        DumpLineView::Text("threshold = "@ + decimal(config.threshold as nat)),
        DumpLineView::Text(""@),
    ]);
    let names = check_name_list(config);
    let sorted = sorted_texts(&names);
    let ghost ns = strings_view(sorted@);
    assert(ns == sorted_of(check_names(*config)));
    assert(dump_view(lines@) =~= head + checks_lines(*config, ns.take(0)));
    let mut i: usize = 0;
    while i < sorted.len()
        invariant
            i <= sorted.len(),
            ns == strings_view(sorted@),
            ns == sorted_of(check_names(*config)),
            ns.to_set() == check_names(*config),
            dump_view(lines@) == head + checks_lines(*config, ns.take(i as int)),
        decreases sorted.len() - i,
    {
        let name = sorted[i].as_str();
        proof {
            assert(ns.to_set().contains(ns[i as int]));
            let cn = config.checks@.map_values(|e: (String, CheckConfig)| e.0@);
            assert(cn.to_set().contains(name@));
            let j = choose|j: int| 0 <= j < cn.len() && cn[j] == name@;
            assert(config.checks@[j].0@ == name@);
            lemma_check_index(config.checks@, name@);
        }
        assert(config_get(*config, name@) is Some);
        let ghost before = dump_view(lines@);
        match config.get(name) {
            Some(cc) => {
                push_check_lines(&mut lines, name, cc);
            },
            None => {},
        }
        assert(dump_view(lines@) == before + check_lines(name@, config_get(*config, name@).unwrap()));
        proof {
            assert(ns.take(i + 1).drop_last() =~= ns.take(i as int));
            assert(ns.take(i + 1).last() == name@);
        }
        assert(dump_view(lines@) =~= head + checks_lines(*config, ns.take(i + 1)));
        i += 1;
    }
    assert(ns.take(sorted.len() as int) =~= ns);
    lines
}

} // verus!
