//! `spec-drift.toml` configuration.
//!
//! The config is intentionally small:
//!
//! - `[severity]` — override the severity of a rule by ID.
//! - `[ignore]` — silence rules, paths, or symbol patterns globally.
//!
//! Reading and TOML-decoding the file is the caller's business; this module
//! validates the decoded tables ([`RawConfig::compile`]) and applies the
//! result. Path and symbol patterns are globs, matched with the `globset`
//! crate.
use vstd::prelude::*;
use crate::domain::{rule_name, Divergence, RuleId, Severity};
use crate::error::SpecDriftError;
use crate::paths::{path_strip_prefix, strip_prefix};
use crate::text::{
    chars_of, first_index_of, index_of_char, lemma_first_index_of, push_str, slice_chars, str_eq,
    strip_suffix_or_keep, string_of, texts, without_suffix,
};

verus! {

// ---------------------------------------------------------------------------
// Globs
// ---------------------------------------------------------------------------

/// What `globset::Glob::new` makes of `pattern`: success, or the rendered
/// error.
pub uninterp spec fn glob_parse(pattern: Seq<char>) -> Result<(), Seq<char>>;

/// What `GlobSetBuilder::build` makes of the globs of `patterns` (each of
/// which parses): success, or the rendered error.
pub uninterp spec fn glob_set_build(patterns: Seq<Seq<char>>) -> Result<(), Seq<char>>;

/// What `GlobSet::is_match` answers for the set built from `patterns` and the
/// candidate `path`.
pub uninterp spec fn glob_set_matches(patterns: Seq<Seq<char>>, path: Seq<char>) -> bool;

/// Parses `pattern` with `globset::Glob::new`; on failure the error's text.
#[verifier::external_body]
pub(crate) fn check_glob(pattern: &str) -> (r: Result<(), String>)
    ensures
        match r {
            Ok(()) => glob_parse(pattern@) == Ok::<(), Seq<char>>(()),
            Err(e) => glob_parse(pattern@) == Err::<(), Seq<char>>(e@),
        },
{
    match globset::Glob::new(pattern) {
        Ok(_) => Ok(()),
        Err(e) => Err(e.to_string()),
    }
}

/// Builds a `globset::GlobSet` from `patterns`; on failure the error's text.
#[verifier::external_body]
pub(crate) fn check_glob_set(patterns: &Vec<String>) -> (r: Result<(), String>)
    requires
        forall|k: int| 0 <= k < patterns.len() ==> glob_parse(#[trigger] patterns@[k]@) is Ok,
    ensures
        match r {
            Ok(()) => glob_set_build(texts(patterns@)) == Ok::<(), Seq<char>>(()),
            Err(e) => glob_set_build(texts(patterns@)) == Err::<(), Seq<char>>(e@),
        },
{
    let mut builder = globset::GlobSetBuilder::new();
    for p in patterns {
        if let Ok(g) = globset::Glob::new(p) {
            builder.add(g);
        }
    }
    match builder.build() {
        Ok(_) => Ok(()),
        Err(e) => Err(e.to_string()),
    }
}

/// Builds the `globset::GlobSet` of `patterns` and asks `is_match(path)`.
#[verifier::external_body]
pub(crate) fn glob_set_is_match(patterns: &Vec<String>, path: &str) -> (b: bool)
    requires
        glob_set_build(texts(patterns@)) is Ok,
    ensures
        b == glob_set_matches(texts(patterns@), path@),
{
    let mut builder = globset::GlobSetBuilder::new();
    for p in patterns {
        if let Ok(g) = globset::Glob::new(p) {
            builder.add(g);
        }
    }
    match builder.build() {
        Ok(set) => set.is_match(path),
        Err(_) => false,
    }
}

/// A nonempty pattern list whose set matches `path` (an empty set matches
/// nothing).
pub open spec fn any_glob_matches(patterns: Seq<Seq<char>>, path: Seq<char>) -> bool {
    patterns.len() > 0 && glob_set_matches(patterns, path)
}

// ---------------------------------------------------------------------------
// Names
// ---------------------------------------------------------------------------

/// The rule whose snake_case name is `n`.
pub open spec fn rule_named(n: Seq<char>) -> Option<RuleId> {
    if n == "symbol_absence"@ {
        Some(RuleId::SymbolAbsence)
    } else if n == "constraint_violation"@ {
        Some(RuleId::ConstraintViolation)
    } else if n == "outdated_logic"@ {
        Some(RuleId::OutdatedLogic)
    } else if n == "compile_failure"@ {
        Some(RuleId::CompileFailure)
    } else if n == "deprecated_usage"@ {
        Some(RuleId::DeprecatedUsage)
    } else if n == "logic_gap"@ {
        Some(RuleId::LogicGap)
    } else if n == "lying_test"@ {
        Some(RuleId::LyingTest)
    } else if n == "missing_coverage"@ {
        Some(RuleId::MissingCoverage)
    } else if n == "ghost_command"@ {
        Some(RuleId::GhostCommand)
    } else if n == "env_mismatch"@ {
        Some(RuleId::EnvMismatch)
    } else {
        None
    }
}

/// The severity named `n` in a config file.
pub open spec fn severity_named(n: Seq<char>) -> Option<Severity> {
    if n == "notice"@ {
        Some(Severity::Notice)
    } else if n == "warning"@ {
        Some(Severity::Warning)
    } else if n == "critical"@ {
        Some(Severity::Critical)
    } else {
        None
    }
}

/// The rule a config file names `name`, if any.
pub fn parse_rule_id(name: &str) -> (r: Option<RuleId>)
    ensures
        r == rule_named(name@),
{
    if str_eq(name, "symbol_absence") {
        Some(RuleId::SymbolAbsence)
    } else if str_eq(name, "constraint_violation") {
        Some(RuleId::ConstraintViolation)
    } else if str_eq(name, "outdated_logic") {
        Some(RuleId::OutdatedLogic)
    } else if str_eq(name, "compile_failure") {
        Some(RuleId::CompileFailure)
    } else if str_eq(name, "deprecated_usage") {
        Some(RuleId::DeprecatedUsage)
    } else if str_eq(name, "logic_gap") {
        Some(RuleId::LogicGap)
    } else if str_eq(name, "lying_test") {
        Some(RuleId::LyingTest)
    } else if str_eq(name, "missing_coverage") {
        Some(RuleId::MissingCoverage)
    } else if str_eq(name, "ghost_command") {
        Some(RuleId::GhostCommand)
    } else if str_eq(name, "env_mismatch") {
        Some(RuleId::EnvMismatch)
    } else {
        None
    }
}

/// The severity a config file names `name`, if any.
pub fn parse_severity(name: &str) -> (r: Option<Severity>)
    ensures
        r == severity_named(name@),
{
    if str_eq(name, "notice") {
        Some(Severity::Notice)
    } else if str_eq(name, "warning") {
        Some(Severity::Warning)
    } else if str_eq(name, "critical") {
        Some(Severity::Critical)
    } else {
        None
    }
}

/// Every rule's name reads back as that rule.
pub proof fn lemma_rule_name_round_trip(r: RuleId)
    ensures
        rule_named(rule_name(r)) == Some(r),
{
    reveal_strlit("symbol_absence");
    reveal_strlit("constraint_violation");
    reveal_strlit("outdated_logic");
    reveal_strlit("compile_failure");
    reveal_strlit("deprecated_usage");
    reveal_strlit("logic_gap");
    reveal_strlit("lying_test");
    reveal_strlit("missing_coverage");
    reveal_strlit("ghost_command");
    reveal_strlit("env_mismatch");
    match r {
        RuleId::SymbolAbsence => {
        },
        RuleId::ConstraintViolation => {
            assert("constraint_violation"@[0] != "symbol_absence"@[0]);
        },
        RuleId::OutdatedLogic => {
            assert("outdated_logic"@[0] != "symbol_absence"@[0]);
            assert("outdated_logic"@[0] != "constraint_violation"@[0]);
        },
        RuleId::CompileFailure => {
            assert("compile_failure"@[0] != "symbol_absence"@[0]);
            assert("compile_failure"@[2] != "constraint_violation"@[2]);
            assert("compile_failure"@[0] != "outdated_logic"@[0]);
        },
        RuleId::DeprecatedUsage => {
            assert("deprecated_usage"@[0] != "symbol_absence"@[0]);
            assert("deprecated_usage"@[0] != "constraint_violation"@[0]);
            assert("deprecated_usage"@[0] != "outdated_logic"@[0]);
            assert("deprecated_usage"@[0] != "compile_failure"@[0]);
        },
        RuleId::LogicGap => {
            assert("logic_gap"@[0] != "symbol_absence"@[0]);
            assert("logic_gap"@[0] != "constraint_violation"@[0]);
            assert("logic_gap"@[0] != "outdated_logic"@[0]);
            assert("logic_gap"@[0] != "compile_failure"@[0]);
            assert("logic_gap"@[0] != "deprecated_usage"@[0]);
        },
        RuleId::LyingTest => {
            assert("lying_test"@[0] != "symbol_absence"@[0]);
            assert("lying_test"@[0] != "constraint_violation"@[0]);
            assert("lying_test"@[0] != "outdated_logic"@[0]);
            assert("lying_test"@[0] != "compile_failure"@[0]);
            assert("lying_test"@[0] != "deprecated_usage"@[0]);
            assert("lying_test"@[1] != "logic_gap"@[1]);
        },
        RuleId::MissingCoverage => {
            assert("missing_coverage"@[0] != "symbol_absence"@[0]);
            assert("missing_coverage"@[0] != "constraint_violation"@[0]);
            assert("missing_coverage"@[0] != "outdated_logic"@[0]);
            assert("missing_coverage"@[0] != "compile_failure"@[0]);
            assert("missing_coverage"@[0] != "deprecated_usage"@[0]);
            assert("missing_coverage"@[0] != "logic_gap"@[0]);
            assert("missing_coverage"@[0] != "lying_test"@[0]);
        },
        RuleId::GhostCommand => {
            assert("ghost_command"@[0] != "symbol_absence"@[0]);
            assert("ghost_command"@[0] != "constraint_violation"@[0]);
            assert("ghost_command"@[0] != "outdated_logic"@[0]);
            assert("ghost_command"@[0] != "compile_failure"@[0]);
            assert("ghost_command"@[0] != "deprecated_usage"@[0]);
            assert("ghost_command"@[0] != "logic_gap"@[0]);
            assert("ghost_command"@[0] != "lying_test"@[0]);
            assert("ghost_command"@[0] != "missing_coverage"@[0]);
        },
        RuleId::EnvMismatch => {
            assert("env_mismatch"@[0] != "symbol_absence"@[0]);
            assert("env_mismatch"@[0] != "constraint_violation"@[0]);
            assert("env_mismatch"@[0] != "outdated_logic"@[0]);
            assert("env_mismatch"@[0] != "compile_failure"@[0]);
            assert("env_mismatch"@[0] != "deprecated_usage"@[0]);
            assert("env_mismatch"@[0] != "logic_gap"@[0]);
            assert("env_mismatch"@[0] != "lying_test"@[0]);
            assert("env_mismatch"@[0] != "missing_coverage"@[0]);
            assert("env_mismatch"@[0] != "ghost_command"@[0]);
        },
    }
}

/// A name that reads as a rule is that rule's name.
pub proof fn lemma_rule_named_is_name(n: Seq<char>)
    ensures
        rule_named(n) matches Some(r) ==> rule_name(r) == n,
{
}

// ---------------------------------------------------------------------------
// The compiled configuration
// ---------------------------------------------------------------------------

/// Parsed `spec-drift.toml`.
pub struct Config {
    /// `[severity]` overrides in file order; a later entry for a rule wins.
    pub severities: Vec<(RuleId, Severity)>,
    pub ignored_rules: Vec<RuleId>,
    /// `[ignore].paths` globs.
    pub ignored_paths: Vec<String>,
    /// `[ignore].symbols` globs.
    pub ignored_symbols: Vec<String>,
}

/// The override for `rule`: the last entry that names it.
pub open spec fn override_for(sevs: Seq<(RuleId, Severity)>, rule: RuleId) -> Option<Severity>
    decreases sevs.len(),
{
    if sevs.len() == 0 {
        None
    } else if sevs.last().0 == rule {
        Some(sevs.last().1)
    } else {
        override_for(sevs.drop_last(), rule)
    }
}

/// The first backticked token of `text` with a trailing `()` removed.
pub open spec fn backticked_symbol(text: Seq<char>) -> Option<Seq<char>> {
    let a = first_index_of(text, '`');
    if a >= text.len() {
        None
    } else {
        let rest = text.skip(a + 1);
        let b = first_index_of(rest, '`');
        if b >= rest.len() {
            None
        } else {
            Some(without_suffix(rest.take(b), "()"@))
        }
    }
}

/// `path` relative to `root` when under it, else `path`.
pub open spec fn relative_to(path: Seq<char>, root: Seq<char>) -> Seq<char> {
    match path_strip_prefix(path, root) {
        Some(rel) => rel,
        None => path,
    }
}

impl Config {
    /// The glob lists can be matched against.
    pub open spec fn wf(&self) -> bool {
        &&& (self.ignored_paths.len() > 0 ==> glob_set_build(texts(self.ignored_paths@)) is Ok)
        &&& (self.ignored_symbols.len() > 0 ==> glob_set_build(texts(self.ignored_symbols@)) is Ok)
    }

    /// The divergence is dropped before reporting: its rule is ignored, its
    /// root-relative path matches an ignored path glob, or its first
    /// backticked symbol matches an ignored symbol glob.
    pub open spec fn suppresses(&self, d: Divergence, root: Seq<char>) -> bool {
        ||| self.ignored_rules@.contains(d.rule)
        ||| any_glob_matches(texts(self.ignored_paths@), relative_to(d.location.file@, root))
        ||| match backticked_symbol(d.stated@) {
            Some(sym) => any_glob_matches(texts(self.ignored_symbols@), sym),
            None => false,
        }
    }

    /// The configuration with nothing overridden or ignored.
    pub fn empty() -> (c: Config)
        ensures
            c.wf(),
            c.severities@.len() == 0,
            c.ignored_rules@.len() == 0,
            c.ignored_paths@.len() == 0,
            c.ignored_symbols@.len() == 0,
    {
        Config {
            severities: Vec::new(),
            ignored_rules: Vec::new(),
            ignored_paths: Vec::new(),
            ignored_symbols: Vec::new(),
        }
    }

    fn rule_ignored(&self, rule: RuleId) -> (b: bool)
        ensures
            b == self.ignored_rules@.contains(rule),
    {
        for k in 0..self.ignored_rules.len()
            invariant
                forall|j: int| 0 <= j < k ==> self.ignored_rules@[j] != rule,
        {
            if self.ignored_rules[k] == rule {
                return true;
            }
        }
        false
    }

    /// True when this divergence should be dropped before reporting.
    pub fn is_suppressed(&self, d: &Divergence, root: &str) -> (b: bool)
        requires
            self.wf(),
        ensures
            b == self.suppresses(*d, root@),
    {
        if self.rule_ignored(d.rule) {
            return true;
        }
        let rel = match strip_prefix(d.location.file.as_str(), root) {
            Some(r) => r,
            None => d.location.file.clone(),
        };
        if self.ignored_paths.len() > 0 && glob_set_is_match(&self.ignored_paths, rel.as_str()) {
            return true;
        }
        match extract_backticked_symbol(d.stated.as_str()) {
            Some(sym) => self.ignored_symbols.len() > 0 && glob_set_is_match(
                &self.ignored_symbols,
                sym.as_str(),
            ),
            None => false,
        }
    }

    /// The `[severity]` override for `rule`, if any.
    pub fn override_of(&self, rule: RuleId) -> (r: Option<Severity>)
        ensures
            r == override_for(self.severities@, rule),
    {
        let mut k = self.severities.len();
        assert(self.severities@.take(k as int) =~= self.severities@);
        while k > 0
            invariant
                k <= self.severities.len(),
                override_for(self.severities@, rule) == override_for(
                    self.severities@.take(k as int),
                    rule,
                ),
            decreases k,
        {
            assert(self.severities@.take(k as int).drop_last() =~= self.severities@.take(k - 1));
            if self.severities[k - 1].0 == rule {
                return Some(self.severities[k - 1].1);
            }
            k = k - 1;
        }
        None
    }

    /// Apply `[severity]` overrides in place.
    pub fn apply_severity_overrides(&self, divs: &mut Vec<Divergence>)
        ensures
            final(divs).len() == old(divs).len(),
            forall|i: int|
                0 <= i < old(divs).len() ==> #[trigger] final(divs)@[i] == (match override_for(
                    self.severities@,
                    old(divs)@[i].rule,
                ) {
                    Some(s) => Divergence { severity: s, ..old(divs)@[i] },
                    None => old(divs)@[i],
                }),
    {
        let mut out: Vec<Divergence> = Vec::new();
        for i in 0..divs.len()
            invariant
                out.len() == i,
                forall|k: int|
                    0 <= k < i ==> #[trigger] out@[k] == (match override_for(
                        self.severities@,
                        divs@[k].rule,
                    ) {
                        Some(s) => Divergence { severity: s, ..divs@[k] },
                        None => divs@[k],
                    }),
        {
            let mut d = divs[i].duplicate();
            match self.override_of(d.rule) {
                Some(s) => {
                    d.severity = s;
                },
                None => {},
            }
            out.push(d);
        }
        *divs = out;
    }
}

/// Pull the first backticked token out of `text`, stripping a trailing `()`.
pub fn extract_backticked_symbol(text: &str) -> (r: Option<String>)
    ensures
        match r {
            Some(s) => backticked_symbol(text@) == Some(s@),
            None => backticked_symbol(text@) is None,
        },
{
    let t = chars_of(text);
    let a = index_of_char(&t, '`');
    proof {
        lemma_first_index_of(t@, '`');
    }
    if a >= t.len() {
        return None;
    }
    let rest = slice_chars(&t, a + 1, t.len());
    assert(rest@ =~= t@.skip(a + 1));
    let b = index_of_char(&rest, '`');
    proof {
        lemma_first_index_of(rest@, '`');
    }
    if b >= rest.len() {
        return None;
    }
    let inner = slice_chars(&rest, 0, b);
    assert(inner@ =~= rest@.take(b as int));
    let suffix = chars_of("()");
    let sym = strip_suffix_or_keep(&inner, &suffix);
    Some(string_of(&sym))
}

/// A rule listed under `[ignore].rules` never reaches the report, whatever
/// the severity overrides say.
pub proof fn lemma_ignored_rules_never_reported(divs: Seq<Divergence>, cfg: Config, root: Seq<char>, k: int)
    requires
        0 <= k < divs.filter(|d: Divergence| !cfg.suppresses(d, root)).len(),
    ensures
        ({
            let out = divs.filter(|d: Divergence| !cfg.suppresses(d, root)).map_values(
                |d: Divergence|
                    match override_for(cfg.severities@, d.rule) {
                        Some(s) => Divergence { severity: s, ..d },
                        None => d,
                    },
            );
            !cfg.ignored_rules@.contains(out[k].rule)
        }),
{
    let pred = |d: Divergence| !cfg.suppresses(d, root);
    let kept = divs.filter(pred);
    divs.lemma_filter_pred(pred, k);
}

/// Drop suppressed divergences (order kept), then apply severity overrides.
pub fn apply_config(divs: Vec<Divergence>, cfg: &Config, root: &str) -> (out: Vec<Divergence>)
    requires
        cfg.wf(),
    ensures
        out@ == divs@.filter(|d: Divergence| !cfg.suppresses(d, root@)).map_values(
            |d: Divergence|
                match override_for(cfg.severities@, d.rule) {
                    Some(s) => Divergence { severity: s, ..d },
                    None => d,
                },
        ),
{
    let ghost pred = |d: Divergence| !cfg.suppresses(d, root@);
    let mut kept: Vec<Divergence> = Vec::new();
    for i in 0..divs.len()
        invariant
            cfg.wf(),
            pred == (|d: Divergence| !cfg.suppresses(d, root@)),
            kept@ == divs@.take(i as int).filter(pred),
    {
        let drop = cfg.is_suppressed(&divs[i], root);
        proof {
            assert(divs@.take(i + 1).drop_last() =~= divs@.take(i as int));
            reveal(Seq::filter);
        }
        if !drop {
            kept.push(divs[i].duplicate());
        }
    }
    assert(divs@.take(divs.len() as int) =~= divs@);
    let ghost before = kept@;
    cfg.apply_severity_overrides(&mut kept);
    assert(kept@ =~= before.map_values(
        |d: Divergence|
            match override_for(cfg.severities@, d.rule) {
                Some(s) => Divergence { severity: s, ..d },
                None => d,
            },
    ));
    kept
}

// ---------------------------------------------------------------------------
// Compiling the decoded file
// ---------------------------------------------------------------------------

/// The tables of a decoded `spec-drift.toml`: `[severity]` entries in the
/// order the decoder yields them, and the `[ignore]` lists.
pub struct RawConfig {
    pub severity: Vec<(String, String)>,
    pub rules: Vec<String>,
    pub paths: Vec<String>,
    pub symbols: Vec<String>,
}

pub open spec fn severity_entry_error(name: Seq<char>, sev: Seq<char>) -> Option<Seq<char>> {
    if rule_named(name) is None {
        Some("unknown rule in [severity]: `"@ + name + "`"@)
    } else if severity_named(sev) is None {
        Some("unknown severity for `"@ + name + "`: `"@ + sev + "`"@)
    } else {
        None
    }
}

/// The first error among the `[severity]` entries.
pub open spec fn severity_errors(entries: Seq<(String, String)>) -> Option<Seq<char>>
    decreases entries.len(),
{
    if entries.len() == 0 {
        None
    } else {
        match severity_entry_error(entries[0].0@, entries[0].1@) {
            Some(m) => Some(m),
            None => severity_errors(entries.drop_first()),
        }
    }
}

/// The first unknown rule of `[ignore].rules`.
pub open spec fn rule_list_errors(names: Seq<Seq<char>>) -> Option<Seq<char>>
    decreases names.len(),
{
    if names.len() == 0 {
        None
    } else if rule_named(names[0]) is None {
        Some("unknown rule in [ignore].rules: `"@ + names[0] + "`"@)
    } else {
        rule_list_errors(names.drop_first())
    }
}

/// The first pattern of `[ignore].<field>` that is not a glob.
pub open spec fn glob_parse_errors(pats: Seq<Seq<char>>, field: Seq<char>) -> Option<Seq<char>>
    decreases pats.len(),
{
    if pats.len() == 0 {
        None
    } else {
        match glob_parse(pats[0]) {
            Err(e) => Some("invalid glob in [ignore]."@ + field + ": `"@ + pats[0] + "`: "@ + e),
            Ok(()) => glob_parse_errors(pats.drop_first(), field),
        }
    }
}

/// The error of a glob list: a bad glob, or a set that fails to build.
pub open spec fn glob_list_error(pats: Seq<Seq<char>>, field: Seq<char>) -> Option<Seq<char>> {
    match glob_parse_errors(pats, field) {
        Some(m) => Some(m),
        None => if pats.len() > 0 {
            match glob_set_build(pats) {
                Err(e) => Some("failed to compile [ignore]."@ + field + " glob set: "@ + e),
                Ok(()) => None,
            }
        } else {
            None
        },
    }
}

/// The first error of the whole file, in the order the checks run.
pub open spec fn raw_config_error(raw: RawConfig) -> Option<Seq<char>> {
    match severity_errors(raw.severity@) {
        Some(m) => Some(m),
        None => match rule_list_errors(texts(raw.rules@)) {
            Some(m) => Some(m),
            None => match glob_list_error(texts(raw.paths@), "paths"@) {
                Some(m) => Some(m),
                None => glob_list_error(texts(raw.symbols@), "symbols"@),
            },
        },
    }
}

fn severity_entries(entries: &Vec<(String, String)>) -> (r: Result<Vec<(RuleId, Severity)>, String>)
    ensures
        match r {
            Ok(v) => severity_errors(entries@) is None && v@.len() == entries@.len() && forall|
                k: int,
            |
                0 <= k < entries@.len() ==> rule_named(entries@[k].0@) == Some(
                    (#[trigger] v@[k]).0,
                ) && severity_named(entries@[k].1@) == Some(v@[k].1),
            Err(m) => severity_errors(entries@) == Some(m@),
        },
{
    let mut v: Vec<(RuleId, Severity)> = Vec::new();
    let mut k: usize = 0;
    assert(entries@.skip(0) =~= entries@);
    while k < entries.len()
        invariant
            k <= entries.len(),
            v@.len() == k,
            severity_errors(entries@) == severity_errors(entries@.skip(k as int)),
            forall|j: int|
                0 <= j < k ==> rule_named(entries@[j].0@) == Some((#[trigger] v@[j]).0)
                    && severity_named(entries@[j].1@) == Some(v@[j].1),
        decreases entries.len() - k,
    {
        assert(entries@.skip(k as int).drop_first() =~= entries@.skip(k + 1));
        let name = entries[k].0.as_str();
        let sev = entries[k].1.as_str();
        match parse_rule_id(name) {
            None => {
                let mut m = String::new();
                push_str(&mut m, "unknown rule in [severity]: `");
                push_str(&mut m, name);
                push_str(&mut m, "`");
                return Err(m);
            },
            Some(rule) => match parse_severity(sev) {
                None => {
                    let mut m = String::new();
                    push_str(&mut m, "unknown severity for `");
                    push_str(&mut m, name);
                    push_str(&mut m, "`: `");
                    push_str(&mut m, sev);
                    push_str(&mut m, "`");
                    return Err(m);
                },
                Some(s) => {
                    v.push((rule, s));
                },
            },
        }
        k = k + 1;
    }
    Ok(v)
}

fn rule_list(names: &Vec<String>) -> (r: Result<Vec<RuleId>, String>)
    ensures
        match r {
            Ok(v) => rule_list_errors(texts(names@)) is None && v@.len() == names@.len() && forall|
                k: int,
            | 0 <= k < names@.len() ==> rule_named(names@[k]@) == Some(#[trigger] v@[k]),
            Err(m) => rule_list_errors(texts(names@)) == Some(m@),
        },
{
    let ghost ts = texts(names@);
    let mut v: Vec<RuleId> = Vec::new();
    let mut k: usize = 0;
    assert(ts.skip(0) =~= ts);
    while k < names.len()
        invariant
            ts == texts(names@),
            k <= names.len(),
            v@.len() == k,
            rule_list_errors(ts) == rule_list_errors(ts.skip(k as int)),
            forall|j: int| 0 <= j < k ==> rule_named(names@[j]@) == Some(#[trigger] v@[j]),
        decreases names.len() - k,
    {
        assert(ts.skip(k as int).drop_first() =~= ts.skip(k + 1));
        assert(ts.skip(k as int)[0] == names@[k as int]@);
        match parse_rule_id(names[k].as_str()) {
            None => {
                let mut m = String::new();
                push_str(&mut m, "unknown rule in [ignore].rules: `");
                push_str(&mut m, names[k].as_str());
                push_str(&mut m, "`");
                return Err(m);
            },
            Some(rule) => {
                v.push(rule);
            },
        }
        k = k + 1;
    }
    Ok(v)
}

fn check_glob_list(pats: &Vec<String>, field: &str) -> (r: Result<(), String>)
    ensures
        match r {
            Ok(()) => glob_list_error(texts(pats@), field@) is None,
            Err(m) => glob_list_error(texts(pats@), field@) == Some(m@),
        },
{
    let ghost ts = texts(pats@);
    let mut k: usize = 0;
    assert(ts.skip(0) =~= ts);
    while k < pats.len()
        invariant
            ts == texts(pats@),
            k <= pats.len(),
            glob_parse_errors(ts, field@) == glob_parse_errors(ts.skip(k as int), field@),
            forall|j: int| 0 <= j < k ==> glob_parse(#[trigger] pats@[j]@) is Ok,
        decreases pats.len() - k,
    {
        assert(ts.skip(k as int).drop_first() =~= ts.skip(k + 1));
        assert(ts.skip(k as int)[0] == pats@[k as int]@);
        match check_glob(pats[k].as_str()) {
            Err(e) => {
                let mut m = String::new();
                push_str(&mut m, "invalid glob in [ignore].");
                push_str(&mut m, field);
                push_str(&mut m, ": `");
                push_str(&mut m, pats[k].as_str());
                push_str(&mut m, "`: ");
                push_str(&mut m, e.as_str());
                return Err(m);
            },
            Ok(()) => {},
        }
        k = k + 1;
    }
    if pats.len() == 0 {
        return Ok(());
    }
    match check_glob_set(pats) {
        Err(e) => {
            let mut m = String::new();
            push_str(&mut m, "failed to compile [ignore].");
            push_str(&mut m, field);
            push_str(&mut m, " glob set: ");
            push_str(&mut m, e.as_str());
            Err(m)
        },
        Ok(()) => Ok(()),
    }
}

fn copy_strings(v: &Vec<String>) -> (r: Vec<String>)
    ensures
        r@ == v@,
{
    let mut r: Vec<String> = Vec::new();
    for i in 0..v.len()
        invariant
            r@ == v@.take(i as int),
    {
        r.push(v[i].clone());
        assert(v@.take(i + 1) =~= v@.take(i as int).push(v@[i as int]));
    }
    assert(v@.take(v.len() as int) =~= v@);
    r
}

impl RawConfig {
    /// Validate the decoded tables against the rule and severity names and
    /// the glob syntax, stopping at the first problem.
    pub fn compile(&self, path: &str) -> (r: Result<Config, SpecDriftError>)
        ensures
            match r {
                Ok(cfg) => {
                    &&& raw_config_error(*self) is None
                    &&& cfg.wf()
                    &&& cfg.severities@.len() == self.severity@.len()
                    &&& forall|k: int|
                        0 <= k < self.severity@.len() ==> rule_named(self.severity@[k].0@) == Some(
                            (#[trigger] cfg.severities@[k]).0,
                        ) && severity_named(self.severity@[k].1@) == Some(cfg.severities@[k].1)
                    &&& cfg.ignored_rules@.len() == self.rules@.len()
                    &&& forall|k: int|
                        0 <= k < self.rules@.len() ==> rule_named(self.rules@[k]@) == Some(
                            #[trigger] cfg.ignored_rules@[k],
                        )
                    &&& cfg.ignored_paths@ == self.paths@
                    &&& cfg.ignored_symbols@ == self.symbols@
                },
                Err(e) => raw_config_error(*self) matches Some(m) && (e matches SpecDriftError::Config {
                    path: p,
                    message: msg,
                } && p@ == path@ && msg@ == m),
            },
    {
        let severities = match severity_entries(&self.severity) {
            Ok(v) => v,
            Err(m) => {
                return Err(SpecDriftError::Config { path: path.to_owned(), message: m });
            },
        };
        let ignored_rules = match rule_list(&self.rules) {
            Ok(v) => v,
            Err(m) => {
                return Err(SpecDriftError::Config { path: path.to_owned(), message: m });
            },
        };
        match check_glob_list(&self.paths, "paths") {
            Err(m) => {
                return Err(SpecDriftError::Config { path: path.to_owned(), message: m });
            },
            Ok(()) => {},
        }
        match check_glob_list(&self.symbols, "symbols") {
            Err(m) => {
                return Err(SpecDriftError::Config { path: path.to_owned(), message: m });
            },
            Ok(()) => {},
        }
        Ok(
            Config {
                severities,
                ignored_rules,
                ignored_paths: copy_strings(&self.paths),
                ignored_symbols: copy_strings(&self.symbols),
            },
        )
    }
}

} // verus!
