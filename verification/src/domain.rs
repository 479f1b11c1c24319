//! The pure domain model: rules, severities, locations, claims, facts and
//! divergences. Paths are carried as `String`s.

use vstd::prelude::*;

verus! {

/// Rule identifiers map 1:1 with the rule catalog in the README.
#[derive(Debug, Clone, Copy, PartialEq, Eq, Structural, PartialOrd, Ord, Hash)]
pub enum RuleId {
    SymbolAbsence,
    ConstraintViolation,
    OutdatedLogic,
    CompileFailure,
    DeprecatedUsage,
    LogicGap,
    LyingTest,
    MissingCoverage,
    GhostCommand,
    EnvMismatch,
}

/// The snake_case name of a rule.
pub open spec fn rule_name(r: RuleId) -> Seq<char> {
    match r {
        RuleId::SymbolAbsence => "symbol_absence"@,
        RuleId::ConstraintViolation => "constraint_violation"@,
        RuleId::OutdatedLogic => "outdated_logic"@,
        RuleId::CompileFailure => "compile_failure"@,
        RuleId::DeprecatedUsage => "deprecated_usage"@,
        RuleId::LogicGap => "logic_gap"@,
        RuleId::LyingTest => "lying_test"@,
        RuleId::MissingCoverage => "missing_coverage"@,
        RuleId::GhostCommand => "ghost_command"@,
        RuleId::EnvMismatch => "env_mismatch"@,
    }
}

/// Confidence class of a rule, as in the README confidence matrix.
pub open spec fn rule_confidence(r: RuleId) -> Confidence {
    match r {
        RuleId::SymbolAbsence | RuleId::CompileFailure | RuleId::DeprecatedUsage
        | RuleId::GhostCommand => Confidence::Deterministic,
        RuleId::ConstraintViolation | RuleId::LyingTest | RuleId::MissingCoverage
        | RuleId::EnvMismatch => Confidence::Heuristic,
        RuleId::OutdatedLogic | RuleId::LogicGap => Confidence::Experimental,
    }
}

impl RuleId {
    pub fn as_str(&self) -> (s: &'static str)
        ensures
            s@ == rule_name(*self),
    {
        match self {
            RuleId::SymbolAbsence => "symbol_absence",
            RuleId::ConstraintViolation => "constraint_violation",
            RuleId::OutdatedLogic => "outdated_logic",
            RuleId::CompileFailure => "compile_failure",
            RuleId::DeprecatedUsage => "deprecated_usage",
            RuleId::LogicGap => "logic_gap",
            RuleId::LyingTest => "lying_test",
            RuleId::MissingCoverage => "missing_coverage",
            RuleId::GhostCommand => "ghost_command",
            RuleId::EnvMismatch => "env_mismatch",
        }
    }

    /// Confidence class — matches the README confidence matrix.
    pub fn confidence(&self) -> (c: Confidence)
        ensures
            c == rule_confidence(*self),
    {
        match self {
            RuleId::SymbolAbsence | RuleId::CompileFailure | RuleId::DeprecatedUsage
            | RuleId::GhostCommand => Confidence::Deterministic,
            RuleId::ConstraintViolation | RuleId::LyingTest | RuleId::MissingCoverage
            | RuleId::EnvMismatch => Confidence::Heuristic,
            RuleId::OutdatedLogic | RuleId::LogicGap => Confidence::Experimental,
        }
    }
}

/// Confidence class of a [`RuleId`].
#[derive(Debug, Clone, Copy, PartialEq, Eq, Structural)]
pub enum Confidence {
    Deterministic,
    Heuristic,
    Experimental,
}

/// Severity of a divergence; `Notice < Warning < Critical`.
#[derive(Debug, Clone, Copy, PartialEq, Eq, Structural, PartialOrd, Ord, Hash)]
pub enum Severity {
    Notice,
    Warning,
    Critical,
}

/// The position of a severity in the order `Notice < Warning < Critical`.
pub open spec fn severity_rank(s: Severity) -> int {
    match s {
        Severity::Notice => 0,
        Severity::Warning => 1,
        Severity::Critical => 2,
    }
}

/// The severity one step up, saturating at `Critical`.
pub open spec fn severity_promoted(s: Severity) -> Severity {
    match s {
        Severity::Notice => Severity::Warning,
        Severity::Warning => Severity::Critical,
        Severity::Critical => Severity::Critical,
    }
}

/// The glyph-prefixed label of a severity used by the human reporter.
pub open spec fn severity_glyph(s: Severity) -> Seq<char> {
    match s {
        Severity::Notice => "🟡 NOTICE"@,
        Severity::Warning => "⚠️  WARNING"@,
        Severity::Critical => "❌ CRITICAL"@,
    }
}

impl Severity {
    pub fn glyph(&self) -> (g: &'static str)
        ensures
            g@ == severity_glyph(*self),
    {
        match self {
            Severity::Notice => "🟡 NOTICE",
            Severity::Warning => "⚠️  WARNING",
            Severity::Critical => "❌ CRITICAL",
        }
    }

    /// Promote one step. `Critical` saturates.
    pub fn promoted(self) -> (p: Severity)
        ensures
            p == severity_promoted(self),
            severity_rank(p) == if severity_rank(self) < 2 { severity_rank(self) + 1 } else { 2 },
    {
        match self {
            Severity::Notice => Severity::Warning,
            Severity::Warning => Severity::Critical,
            Severity::Critical => Severity::Critical,
        }
    }

    /// The rank of this severity: `Notice` 0, `Warning` 1, `Critical` 2.
    pub fn rank(&self) -> (r: u8)
        ensures
            r as int == severity_rank(*self),
    {
        match self {
            Severity::Notice => 0,
            Severity::Warning => 1,
            Severity::Critical => 2,
        }
    }

    /// `self >= other` in the order `Notice < Warning < Critical`.
    pub fn at_least(&self, other: &Severity) -> (b: bool)
        ensures
            b == (severity_rank(*self) >= severity_rank(*other)),
    {
        self.rank() >= other.rank()
    }
}

/// Promotion never lowers a severity, and it is the identity exactly on
/// `Critical`.
pub proof fn lemma_promoted_never_lowers(s: Severity)
    ensures
        severity_rank(severity_promoted(s)) >= severity_rank(s),
        (severity_promoted(s) == s) <==> (s == Severity::Critical),
{
}

/// Promotion preserves the order of severities.
pub proof fn lemma_promoted_monotone(a: Severity, b: Severity)
    requires
        severity_rank(a) <= severity_rank(b),
    ensures
        severity_rank(severity_promoted(a)) <= severity_rank(severity_promoted(b)),
{
}

/// Two promotions reach `Critical` from any severity.
pub proof fn lemma_promoted_twice_is_critical(s: Severity)
    ensures
        severity_promoted(severity_promoted(s)) == Severity::Critical,
{
}

/// A place in a file: its path and a 1-based line.
#[derive(Debug, Clone, PartialEq, Eq, PartialOrd, Ord, Hash)]
pub struct Location {
    pub file: String,
    pub line: u32,
}

impl Location {
    pub fn new(file: &str, line: u32) -> (l: Location)
        ensures
            l.file@ == file@,
            l.line == line,
    {
        Location { file: file.to_owned(), line }
    }

    /// A copy of this location.
    pub fn duplicate(&self) -> (l: Location)
        ensures
            l == *self,
    {
        Location { file: self.file.clone(), line: self.line }
    }
}

/// A claim a specification surface makes, e.g. an inline code span.
#[derive(Debug, Clone, PartialEq, Eq)]
pub struct SpecClaim {
    pub location: Location,
    pub kind: ClaimKind,
    pub text: String,
}

#[derive(Debug, Clone, Copy, PartialEq, Eq, Structural)]
pub enum ClaimKind {
    Symbol,
    Constraint,
    Command,
}

/// A fact about the code: a named item and where it is declared.
#[derive(Debug, Clone, PartialEq, Eq)]
pub struct CodeFact {
    pub location: Location,
    pub kind: FactKind,
    pub name: String,
}

impl CodeFact {
    /// A copy of this fact.
    pub fn duplicate(&self) -> (f: CodeFact)
        ensures
            f == *self,
    {
        CodeFact { location: self.location.duplicate(), kind: self.kind, name: self.name.clone() }
    }
}

#[derive(Debug, Clone, Copy, PartialEq, Eq, Structural)]
pub enum FactKind {
    Function,
    Struct,
    Enum,
    Trait,
    TypeAlias,
    Module,
    Constant,
    Macro,
}

/// One mismatch between what a spec surface states and what the code does.
#[derive(Debug, Clone, PartialEq, Eq)]
pub struct Divergence {
    pub rule: RuleId,
    pub severity: Severity,
    pub location: Location,
    pub stated: String,
    pub reality: String,
    pub risk: String,
    /// Optional blame attribution; `None` when not requested or unresolved.
    pub attribution: Option<Attribution>,
}

/// Git attribution for the line that carries a spec claim.
#[derive(Debug, Clone, PartialEq, Eq)]
pub struct Attribution {
    /// Short commit SHA (first 7 chars).
    pub commit: String,
    /// Author name as recorded by git.
    pub author: String,
    /// Author date in `YYYY-MM-DD` form.
    pub date: String,
    /// Commit summary (subject line).
    pub summary: String,
}

impl Attribution {
    /// A copy of this attribution.
    pub fn duplicate(&self) -> (a: Attribution)
        ensures
            a == *self,
    {
        Attribution {
            commit: self.commit.clone(),
            author: self.author.clone(),
            date: self.date.clone(),
            summary: self.summary.clone(),
        }
    }
}

impl Divergence {
    /// A copy of this divergence.
    pub fn duplicate(&self) -> (d: Divergence)
        ensures
            d == *self,
    {
        let attribution = match &self.attribution {
            Some(a) => Some(a.duplicate()),
            None => None,
        };
        Divergence {
            rule: self.rule,
            severity: self.severity,
            location: self.location.duplicate(),
            stated: self.stated.clone(),
            reality: self.reality.clone(),
            risk: self.risk.clone(),
            attribution,
        }
    }
}

/// A [`Divergence`] with its texts as character sequences; findings
/// carry no attribution.
pub struct Finding {
    pub rule: RuleId,
    pub severity: Severity,
    pub file: Seq<char>,
    pub line: u32,
    pub stated: Seq<char>,
    pub reality: Seq<char>,
    pub risk: Seq<char>,
}

/// `d` is the finding `f`, unattributed.
pub open spec fn is_finding(d: Divergence, f: Finding) -> bool {
    &&& d.rule == f.rule
    &&& d.severity == f.severity
    &&& d.location.file@ == f.file
    &&& d.location.line == f.line
    &&& d.stated@ == f.stated
    &&& d.reality@ == f.reality
    &&& d.risk@ == f.risk
    &&& d.attribution is None
}

/// `ds` are the findings `fs`, in order.
pub open spec fn are_findings(ds: Seq<Divergence>, fs: Seq<Finding>) -> bool {
    ds.len() == fs.len() && forall|k: int| 0 <= k < ds.len() ==> is_finding(#[trigger] ds[k], fs[k])
}

pub proof fn lemma_are_findings_append(a: Seq<Divergence>, fa: Seq<Finding>, b: Seq<Divergence>, fb: Seq<Finding>)
    requires
        are_findings(a, fa),
        are_findings(b, fb),
    ensures
        are_findings(a + b, fa + fb),
{
    assert forall|k: int| 0 <= k < (a + b).len() implies is_finding(#[trigger] (a + b)[k], (fa + fb)[k]) by {
        if k < a.len() {
            assert((a + b)[k] == a[k]);
            assert((fa + fb)[k] == fa[k]);
        } else {
            assert((a + b)[k] == b[k - a.len()]);
            assert((fa + fb)[k] == fb[k - fa.len()]);
        }
    }
}

/// A divergence built from texts, without attribution.
pub fn finding(rule: RuleId, severity: Severity, file: &str, line: u32, stated: String, reality: String, risk: &str) -> (d: Divergence)
    ensures
        is_finding(d, Finding { rule, severity, file: file@, line, stated: stated@, reality: reality@, risk: risk@ }),
{
    Divergence {
        rule,
        severity,
        location: Location::new(file, line),
        stated,
        reality,
        risk: risk.to_owned(),
        attribution: None,
    }
}

} // verus!
