//! Result types: single flags, per-check scores and the aggregated result.
use vstd::prelude::*;
use vstd::string::*;

verus! {

/// A single detected AI prose tell.
#[derive(Debug, Clone)]
pub struct SlopFlag {
    pub check_name: String,
    pub description: String,
    pub location: String,
    pub severity: String,
}

/// The text of a flag's four fields.
pub struct FlagView {
    pub check_name: Seq<char>,
    pub description: Seq<char>,
    pub location: Seq<char>,
    pub severity: Seq<char>,
}

impl View for SlopFlag {
    type V = FlagView;

    open spec fn view(&self) -> FlagView {
        FlagView {
            check_name: self.check_name@,
            description: self.description@,
            location: self.location@,
            severity: self.severity@,
        }
    }
}

/// The views of a sequence of flags.
pub open spec fn flags_view(v: Seq<SlopFlag>) -> Seq<FlagView> {
    v.map_values(|f: SlopFlag| f@)
}

/// A flag with the given fields.
pub open spec fn flag(
    check_name: Seq<char>,
    description: Seq<char>,
    location: Seq<char>,
    severity: Seq<char>,
) -> FlagView {
    FlagView { check_name, description, location, severity }
}

pub open spec fn warning_sev() -> Seq<char> {
    "warning"@
}

pub open spec fn info_sev() -> Seq<char> {
    "info"@
}

impl SlopFlag {
    pub fn new(check_name: &str, description: &str, location: &str, severity: &str) -> (f: Self)
        ensures
            f@ == flag(check_name@, description@, location@, severity@),
    {
        SlopFlag {
            check_name: check_name.to_owned(),
            description: description.to_owned(),
            location: location.to_owned(),
            severity: severity.to_owned(),
        }
    }

    /// A flag of severity "warning".
    pub fn warning(check_name: &str, description: &str, location: &str) -> (f: Self)
        ensures
            f@ == flag(check_name@, description@, location@, warning_sev()),
    {
        Self::new(check_name, description, location, "warning")
    }

    /// A flag of severity "info".
    pub fn info(check_name: &str, description: &str, location: &str) -> (f: Self)
        ensures
            f@ == flag(check_name@, description@, location@, info_sev()),
    {
        Self::new(check_name, description, location, "info")
    }
}

/// Per-check penalty breakdown.
#[derive(Debug, Clone, Copy, PartialEq, Eq, Structural)]
pub struct CheckScore {
    pub penalty: u32,
    pub max: u32,
    pub flags: u32,
}

/// Aggregated result from running all slop checks on a text.
#[derive(Debug)]
pub struct SlopResult {
    /// 0–100 where 0 is pristine and 100 is maximum slop.
    pub score: u32,
    /// Every individual match from every check.
    pub flags: Vec<SlopFlag>,
    /// True when score < the configured threshold.
    pub passed: bool,
    /// Per-check penalty breakdown, one entry per check that fired, ordered by
    /// check name (no name occurs twice).
    pub check_scores: Vec<(String, CheckScore)>,
}

/// The names and scores of a breakdown.
pub open spec fn scores_view(v: Seq<(String, CheckScore)>) -> Seq<(Seq<char>, CheckScore)> {
    v.map_values(|e: (String, CheckScore)| (e.0@, e.1))
}

} // verus!
