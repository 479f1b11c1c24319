//! `constraint_violation`: functions under a glob whose return type drifts
//! from the declared one.
use vstd::prelude::*;
use crate::analyzers::analyzer::DriftAnalyzer;
use crate::config::{check_glob, check_glob_set, glob_parse, glob_set_build, glob_set_is_match, glob_set_matches};
use crate::context::{ProjectContext, RustSource};
use crate::domain::{
    are_findings, finding, is_finding, lemma_are_findings_append, Divergence, Finding, RuleId,
    Severity,
};
use crate::parsers::rust::{RustFn, RustItem};
use crate::paths::path_strip_prefix;
use crate::text::{chars_of, contains_char, is_whitespace, push_str, str_eq, string_of, texts, unicode_whitespace};

verus! {

/// The one-glob set of `pattern`, the form in which a rule's glob is
/// compiled and asked.
pub open spec fn single_glob(pattern: Seq<char>) -> Seq<Seq<char>> {
    seq![pattern]
}

/// Whether `pattern` parses and its one-glob set compiles.
pub open spec fn glob_usable(pattern: Seq<char>) -> bool {
    glob_parse(pattern) is Ok && glob_set_build(single_glob(pattern)) is Ok
}

/// Whether the compiled one-glob set of `pattern` matches `path`.
pub open spec fn rule_glob_matches(pattern: Seq<char>, path: Seq<char>) -> bool {
    glob_usable(pattern) && glob_set_matches(single_glob(pattern), path)
}

/// The error that refuses `pattern`: the parse error, else the compile error.
pub open spec fn glob_refusal(pattern: Seq<char>) -> Option<Seq<char>> {
    match glob_parse(pattern) {
        Err(e) => Some(e),
        Ok(()) => match glob_set_build(single_glob(pattern)) {
            Err(e) => Some(e),
            Ok(()) => None,
        },
    }
}

/// Parses `pattern`, then compiles its one-glob set; the first error's text.
fn compile_rule_glob(pattern: &String) -> (r: Result<(), String>)
    ensures
        match r {
            Ok(()) => glob_usable(pattern@),
            Err(e) => glob_refusal(pattern@) == Some(e@),
        },
{
    match check_glob(pattern.as_str()) {
        Err(e) => return Err(e),
        Ok(()) => {},
    }
    let one = vec![pattern.clone()];
    assert(texts(one@) =~= single_glob(pattern@));
    check_glob_set(&one)
}

/// Asks the compiled one-glob set of `pattern` about `path`.
fn rule_glob_is_match(pattern: &String, path: &str) -> (b: bool)
    requires
        glob_usable(pattern@),
    ensures
        b == rule_glob_matches(pattern@, path@),
{
    let one = vec![pattern.clone()];
    assert(texts(one@) =~= single_glob(pattern@));
    glob_set_is_match(&one, path)
}

/// A user-declared return-type constraint on the functions under a glob.
pub struct ConstraintRule {
    pub name: String,
    /// The glob the constrained files match, relative to the analysis root.
    pub glob: String,
    /// The expected return type; `_` matches any single type argument.
    pub return_type: Option<String>,
}

impl ConstraintRule {
    pub open spec fn wf(&self) -> bool {
        glob_usable(self.glob@)
    }

    /// A rule whose glob compiles; the glob error's text otherwise.
    pub fn new(name: String, glob: String, return_type: Option<String>) -> (r: Result<ConstraintRule, String>)
        ensures
            match r {
                Ok(rule) => rule.wf() && rule.name@ == name@ && rule.glob@ == glob@ && rule.return_type == return_type,
                Err(e) => glob_refusal(glob@) == Some(e@),
            },
    {
        match compile_rule_glob(&glob) {
            Ok(()) => Ok(ConstraintRule { name, glob, return_type }),
            Err(e) => Err(e),
        }
    }
}

// ---------------------------------------------------------------------------
// Type matching
// ---------------------------------------------------------------------------

/// `s` without its whitespace.
pub open spec fn without_whitespace(s: Seq<char>) -> Seq<char>
    decreases s.len(),
{
    if s.len() == 0 {
        Seq::empty()
    } else if unicode_whitespace(s.last()) {
        without_whitespace(s.drop_last())
    } else {
        without_whitespace(s.drop_last()).push(s.last())
    }
}

pub fn normalize(s: &str) -> (r: String)
    ensures
        r@ == without_whitespace(s@),
{
    let cs = chars_of(s);
    let mut out: Vec<char> = Vec::new();
    for i in 0..cs.len()
        invariant
            out@ == without_whitespace(cs@.take(i as int)),
    {
        assert(cs@.take(i + 1).drop_last() =~= cs@.take(i as int));
        if !is_whitespace(cs[i]) {
            out.push(cs[i]);
        }
    }
    assert(cs@.take(cs.len() as int) =~= cs@);
    string_of(&out)
}

pub open spec fn closes_segment(c: char) -> bool {
    c == ',' || c == '>' || c == ')'
}

/// Where a wildcard segment of `a` starting at `j` ends: the first top-level
/// `,`, `>` or `)` (nesting in `<>` and `()` tracked by the depths), or the
/// end of `a`.
pub open spec fn segment_end(a: Seq<char>, j: int, angle: int, paren: int) -> int
    decreases a.len() - j,
{
    if j < 0 || j >= a.len() {
        a.len() as int
    } else if angle == 0 && paren == 0 && closes_segment(a[j]) {
        j
    } else {
        segment_end(
            a,
            j + 1,
            if a[j] == '<' {
                angle + 1
            } else if a[j] == '>' {
                angle - 1
            } else {
                angle
            },
            if a[j] == '(' {
                paren + 1
            } else if a[j] == ')' {
                paren - 1
            } else {
                paren
            },
        )
    }
}

proof fn lemma_segment_end_bounds(a: Seq<char>, j: int, angle: int, paren: int)
    requires
        0 <= j <= a.len(),
    ensures
        j <= segment_end(a, j, angle, paren) <= a.len(),
    decreases a.len() - j,
{
    if j < a.len() && !(angle == 0 && paren == 0 && closes_segment(a[j])) {
        lemma_segment_end_bounds(
            a,
            j + 1,
            if a[j] == '<' {
                angle + 1
            } else if a[j] == '>' {
                angle - 1
            } else {
                angle
            },
            if a[j] == '(' {
                paren + 1
            } else if a[j] == ')' {
                paren - 1
            } else {
                paren
            },
        );
    }
}

/// `p[i..]` matches `a[j..]`, each `_` of `p` standing for one nonempty
/// top-level segment of `a`.
pub open spec fn wildcard_from(p: Seq<char>, a: Seq<char>, i: int, j: int) -> bool
    decreases p.len() - i + a.len() - j,
{
    if i < 0 || j < 0 || i > p.len() || j > a.len() {
        false
    } else if i == p.len() || j == a.len() {
        i == p.len() && j == a.len()
    } else if p[i] == '_' {
        let e = segment_end(a, j, 0, 0);
        if e <= j || e > a.len() {
            false
        } else {
            wildcard_from(p, a, i + 1, e)
        }
    } else if p[i] == a[j] {
        wildcard_from(p, a, i + 1, j + 1)
    } else {
        false
    }
}

/// Compare two normalized type strings where `_` in `pattern` matches a
/// single top-level type argument. Nested angle brackets and parens are
/// tracked so `Result<_, ApiError>` matches `Result<Vec<User>, ApiError>`.
pub fn wildcard_eq(pattern: &str, actual: &str) -> (b: bool)
    ensures
        b == wildcard_from(pattern@, actual@, 0, 0),
{
    let p = chars_of(pattern);
    let a = chars_of(actual);
    let mut pi: usize = 0;
    let mut ai: usize = 0;
    while pi < p.len() && ai < a.len()
        invariant
            p@ == pattern@,
            a@ == actual@,
            pi <= p.len(),
            ai <= a.len(),
            wildcard_from(p@, a@, pi as int, ai as int) == wildcard_from(p@, a@, 0, 0),
        decreases p.len() - pi + a.len() - ai,
    {
        if p[pi] == '_' {
            let mut angle: i128 = 0;
            let mut paren: i128 = 0;
            let mut k: usize = ai;
            while k < a.len() && !(angle == 0 && paren == 0 && (a[k] == ',' || a[k] == '>' || a[k] == ')'))
                invariant
                    ai <= k <= a.len(),
                    -(k - ai) <= angle <= k - ai,
                    -(k - ai) <= paren <= k - ai,
                    segment_end(a@, k as int, angle as int, paren as int) == segment_end(a@, ai as int, 0, 0),
                decreases a.len() - k,
            {
                if a[k] == '<' {
                    angle = angle + 1;
                } else if a[k] == '>' {
                    angle = angle - 1;
                }
                if a[k] == '(' {
                    paren = paren + 1;
                } else if a[k] == ')' {
                    paren = paren - 1;
                }
                k = k + 1;
            }
            if k == ai {
                return false;
            }
            ai = k;
            pi = pi + 1;
        } else if p[pi] == a[ai] {
            pi = pi + 1;
            ai = ai + 1;
        } else {
            return false;
        }
    }
    pi == p.len() && ai == a.len()
}

/// The return type `actual` satisfies the constraint `expected`: equal
/// without whitespace, or equal under `_` wildcards.
pub open spec fn type_matches(expected: Seq<char>, actual: Seq<char>) -> bool {
    let e = without_whitespace(expected);
    let a = without_whitespace(actual);
    e == a || (e.contains('_') && wildcard_from(e, a, 0, 0))
}

/// A return type always satisfies a constraint that spells it out exactly.
pub proof fn lemma_type_matches_itself(t: Seq<char>)
    ensures
        type_matches(t, t),
{
}

pub proof fn lemma_without_whitespace_len(s: Seq<char>)
    ensures
        without_whitespace(s).len() <= s.len(),
    decreases s.len(),
{
    if s.len() > 0 {
        lemma_without_whitespace_len(s.drop_last());
    }
}

/// Compare two type strings after whitespace normalization, treating `_` in
/// the expected pattern as a match-any single-segment wildcard.
pub fn matches_with_wildcard(expected: &str, actual: &str) -> (b: bool)
    ensures
        b == type_matches(expected@, actual@),
{
    let e = normalize(expected);
    let a = normalize(actual);
    if str_eq(e.as_str(), a.as_str()) {
        return true;
    }
    if !contains_char(&chars_of(e.as_str()), '_') {
        return false;
    }
    wildcard_eq(e.as_str(), a.as_str())
}

// ---------------------------------------------------------------------------
// The analyzer
// ---------------------------------------------------------------------------

/// ConstraintAnalyzer — enforces `constraint_violation` (heuristic, Warning).
///
/// For every `fn` (free, in an `impl`, or in an inline module) of the Rust
/// files under a rule's glob, the function's return type is compared to the
/// rule's `return_type`. Matching is syntactic: whitespace is normalized and
/// `_` in the pattern matches any single top-level type argument.
pub struct ConstraintAnalyzer {
    rules: Vec<ConstraintRule>,
}

impl ConstraintAnalyzer {
    pub fn new(rules: Vec<ConstraintRule>) -> (a: ConstraintAnalyzer)
        ensures
            a.rules() == rules@,
    {
        ConstraintAnalyzer { rules }
    }

    pub closed spec fn rules(&self) -> Seq<ConstraintRule> {
        self.rules@
    }
}

/// The divergence for one function under a rule, if its return type drifts.
pub open spec fn fn_violation(rule: ConstraintRule, path: Seq<char>, f: RustFn) -> Option<Finding> {
    match rule.return_type {
        None => None,
        Some(expected) => if type_matches(expected@, f.return_type@) {
            None
        } else {
            Some(
                Finding {
                    rule: RuleId::ConstraintViolation,
                    severity: Severity::Warning,
                    file: path,
                    line: f.ident_line,
                    stated: "constraint `"@ + rule.name@ + "`: `"@ + f.name@ + "` should return `"@
                        + expected@ + "`"@,
                    reality: "`"@ + f.name@ + "` returns `"@ + without_whitespace(f.return_type@) + "`"@,
                    risk: "Functions under this glob have drifted from the stated contract."@,
                },
            )
        },
    }
}

pub open spec fn opt_seq(o: Option<Finding>) -> Seq<Finding> {
    match o {
        Some(f) => seq![f],
        None => Seq::empty(),
    }
}

pub open spec fn fns_violations(rule: ConstraintRule, path: Seq<char>, fns: Seq<RustFn>) -> Seq<Finding>
    decreases fns.len(),
{
    if fns.len() == 0 {
        Seq::empty()
    } else {
        fns_violations(rule, path, fns.drop_last()) + opt_seq(fn_violation(rule, path, fns.last()))
    }
}

/// The violations in an item: a function, the functions of an `impl`, the
/// items of an inline module.
pub open spec fn item_violations(rule: ConstraintRule, path: Seq<char>, item: RustItem) -> Seq<Finding>
    decreases item, 1nat,
{
    match item {
        RustItem::Fn(f) => opt_seq(fn_violation(rule, path, f)),
        RustItem::Impl { fns } => fns_violations(rule, path, fns@),
        RustItem::Mod { name, line, items } => match items {
            Some(v) => items_violations(rule, path, v@),
            None => Seq::empty(),
        },
        _ => Seq::empty(),
    }
}

pub open spec fn items_violations(rule: ConstraintRule, path: Seq<char>, items: Seq<RustItem>) -> Seq<Finding>
    decreases items, 0nat,
{
    if items.len() == 0 {
        Seq::empty()
    } else {
        items_violations(rule, path, items.drop_last()) + item_violations(rule, path, items.last())
    }
}

/// The parse of `file` among the Rust sources.
pub open spec fn syntax_for(srcs: Seq<RustSource>, file: Seq<char>) -> Option<RustSource>
    decreases srcs.len(),
{
    if srcs.len() == 0 {
        None
    } else if srcs[0].path@ == file {
        Some(srcs[0])
    } else {
        syntax_for(srcs.drop_first(), file)
    }
}

pub fn syntax_of<'a>(srcs: &'a Vec<RustSource>, file: &str) -> (r: Option<&'a RustSource>)
    ensures
        match r {
            Some(s) => syntax_for(srcs@, file@) == Some(*s),
            None => syntax_for(srcs@, file@) is None,
        },
{
    let mut k: usize = 0;
    assert(srcs@.skip(0) =~= srcs@);
    while k < srcs.len()
        invariant
            k <= srcs.len(),
            syntax_for(srcs@, file@) == syntax_for(srcs@.skip(k as int), file@),
        decreases srcs.len() - k,
    {
        assert(srcs@.skip(k as int).drop_first() =~= srcs@.skip(k + 1));
        if str_eq(srcs[k].path.as_str(), file) {
            return Some(&srcs[k]);
        }
        k = k + 1;
    }
    None
}

/// `path` relative to the analysis root, else to the root, else as is.
pub open spec fn ctx_rel(ctx: ProjectContext, path: Seq<char>) -> Seq<char> {
    match path_strip_prefix(path, ctx.analysis_root@) {
        Some(p) => p,
        None => match path_strip_prefix(path, ctx.root@) {
            Some(p) => p,
            None => path,
        },
    }
}

/// The violations of one rule in one Rust file: none unless the rule's glob
/// matches the file's relative path and the file parsed.
pub open spec fn file_violations(rule: ConstraintRule, ctx: ProjectContext, file: Seq<char>) -> Seq<Finding> {
    if rule_glob_matches(rule.glob@, ctx_rel(ctx, file)) {
        match syntax_for(ctx.rust_syntax@, file) {
            Some(src) => match src.parsed {
                Ok(items) => items_violations(rule, file, items@),
                Err(_) => Seq::empty(),
            },
            None => Seq::empty(),
        }
    } else {
        Seq::empty()
    }
}

pub open spec fn rule_violations(rule: ConstraintRule, ctx: ProjectContext, files: Seq<String>) -> Seq<Finding>
    decreases files.len(),
{
    if files.len() == 0 {
        Seq::empty()
    } else {
        rule_violations(rule, ctx, files.drop_last()) + file_violations(rule, ctx, files.last()@)
    }
}

pub open spec fn all_violations(rules: Seq<ConstraintRule>, ctx: ProjectContext) -> Seq<Finding>
    decreases rules.len(),
{
    if rules.len() == 0 {
        Seq::empty()
    } else {
        all_violations(rules.drop_last(), ctx) + rule_violations(rules.last(), ctx, ctx.rust_files@)
    }
}

fn fn_check(rule: &ConstraintRule, path: &str, f: &RustFn) -> (r: Option<Divergence>)
    ensures
        match fn_violation(*rule, path@, *f) {
            Some(x) => r matches Some(d) && is_finding(d, x),
            None => r is None,
        },
{
    let expected = match &rule.return_type {
        Some(e) => e,
        None => {
            return None;
        },
    };
    if matches_with_wildcard(expected.as_str(), f.return_type.as_str()) {
        return None;
    }
    let mut stated = String::new();
    push_str(&mut stated, "constraint `");
    push_str(&mut stated, rule.name.as_str());
    push_str(&mut stated, "`: `");
    push_str(&mut stated, f.name.as_str());
    push_str(&mut stated, "` should return `");
    push_str(&mut stated, expected.as_str());
    push_str(&mut stated, "`");
    let mut reality = String::new();
    push_str(&mut reality, "`");
    push_str(&mut reality, f.name.as_str());
    push_str(&mut reality, "` returns `");
    let actual = normalize(f.return_type.as_str());
    push_str(&mut reality, actual.as_str());
    push_str(&mut reality, "`");
    Some(
        finding(
            RuleId::ConstraintViolation,
            Severity::Warning,
            path,
            f.ident_line,
            stated,
            reality,
            "Functions under this glob have drifted from the stated contract.",
        ),
    )
}

/// Appends `more` to `out`; the findings they stand for concatenate.
pub fn append_findings(out: &mut Vec<Divergence>, more: Vec<Divergence>, Ghost(a): Ghost<Seq<Finding>>, Ghost(b): Ghost<Seq<Finding>>)
    requires
        are_findings(old(out)@, a),
        are_findings(more@, b),
    ensures
        are_findings(final(out)@, a + b),
{
    let ghost before = out@;
    let ghost added = more@;
    let mut m = more;
    out.append(&mut m);
    proof {
        lemma_are_findings_append(before, a, added, b);
        assert(out@ =~= before + added);
    }
}

/// Appends the optional divergence `d` to `out`.
pub fn push_finding(out: &mut Vec<Divergence>, d: Option<Divergence>, Ghost(a): Ghost<Seq<Finding>>, Ghost(f): Ghost<Option<Finding>>)
    requires
        are_findings(old(out)@, a),
        match f {
            Some(x) => d matches Some(dd) && is_finding(dd, x),
            None => d is None,
        },
    ensures
        are_findings(final(out)@, a + opt_seq(f)),
{
    match d {
        Some(dd) => {
            let ghost before = out@;
            out.push(dd);
            proof {
                lemma_are_findings_append(before, a, seq![dd], opt_seq(f));
                assert(out@ =~= before + seq![dd]);
            }
        },
        None => {
            assert(a + opt_seq(f) =~= a);
        },
    }
}

fn fns_check(rule: &ConstraintRule, path: &str, fns: &Vec<RustFn>) -> (r: Vec<Divergence>)
    ensures
        are_findings(r@, fns_violations(*rule, path@, fns@)),
{
    let mut out: Vec<Divergence> = Vec::new();
    for i in 0..fns.len()
        invariant
            are_findings(out@, fns_violations(*rule, path@, fns@.take(i as int))),
    {
        assert(fns@.take(i + 1).drop_last() =~= fns@.take(i as int));
        let d = fn_check(rule, path, &fns[i]);
        push_finding(&mut out, d, Ghost(fns_violations(*rule, path@, fns@.take(i as int))), Ghost(fn_violation(*rule, path@, fns@[i as int])));
    }
    assert(fns@.take(fns.len() as int) =~= fns@);
    out
}

fn item_check(rule: &ConstraintRule, path: &str, item: &RustItem) -> (r: Vec<Divergence>)
    ensures
        are_findings(r@, item_violations(*rule, path@, *item)),
    decreases item, 1nat,
{
    match item {
        RustItem::Fn(f) => {
            let mut out: Vec<Divergence> = Vec::new();
            let d = fn_check(rule, path, f);
            push_finding(&mut out, d, Ghost(Seq::empty()), Ghost(fn_violation(*rule, path@, *f)));
            assert(Seq::<Finding>::empty() + opt_seq(fn_violation(*rule, path@, *f)) =~= item_violations(*rule, path@, *item));
            out
        },
        RustItem::Impl { fns } => fns_check(rule, path, fns),
        RustItem::Mod { name: _, line: _, items } => match items {
            Some(v) => items_check(rule, path, v),
            None => Vec::new(),
        },
        _ => Vec::new(),
    }
}

fn items_check(rule: &ConstraintRule, path: &str, items: &Vec<RustItem>) -> (r: Vec<Divergence>)
    ensures
        are_findings(r@, items_violations(*rule, path@, items@)),
    decreases items, 0nat,
{
    let mut out: Vec<Divergence> = Vec::new();
    for i in 0..items.len()
        invariant
            are_findings(out@, items_violations(*rule, path@, items@.take(i as int))),
    {
        assert(items@.take(i + 1).drop_last() =~= items@.take(i as int));
        let more = item_check(rule, path, &items[i]);
        append_findings(&mut out, more, Ghost(items_violations(*rule, path@, items@.take(i as int))), Ghost(item_violations(*rule, path@, items@[i as int])));
    }
    assert(items@.take(items.len() as int) =~= items@);
    out
}

fn file_check(rule: &ConstraintRule, ctx: &ProjectContext, file: &str) -> (r: Vec<Divergence>)
    ensures
        are_findings(r@, file_violations(*rule, *ctx, file@)),
{
    match compile_rule_glob(&rule.glob) {
        Err(_) => {
            return Vec::new();
        },
        Ok(()) => {},
    }
    let rel = ctx.rel(file);
    if !rule_glob_is_match(&rule.glob, rel.as_str()) {
        return Vec::new();
    }
    match syntax_of(&ctx.rust_syntax, file) {
        Some(src) => match &src.parsed {
            Ok(items) => items_check(rule, file, items),
            Err(_) => Vec::new(),
        },
        None => Vec::new(),
    }
}

impl DriftAnalyzer for ConstraintAnalyzer {
    fn id(&self) -> (s: &'static str)
        ensures
            s@ == "constraint_violation"@,
    {
        "constraint_violation"
    }

    fn analyze(&self, ctx: &ProjectContext) -> (out: Vec<Divergence>)
        ensures
            are_findings(out@, all_violations(self.rules(), *ctx)),
    {
        let mut out: Vec<Divergence> = Vec::new();
        for r in 0..self.rules.len()
            invariant
                are_findings(out@, all_violations(self.rules@.take(r as int), *ctx)),
        {
            assert(self.rules@.take(r + 1).drop_last() =~= self.rules@.take(r as int));
            let rule = &self.rules[r];
            let mut found: Vec<Divergence> = Vec::new();
            for i in 0..ctx.rust_files.len()
                invariant
                    are_findings(found@, rule_violations(*rule, *ctx, ctx.rust_files@.take(i as int))),
            {
                assert(ctx.rust_files@.take(i + 1).drop_last() =~= ctx.rust_files@.take(i as int));
                let more = file_check(rule, ctx, ctx.rust_files[i].as_str());
                append_findings(&mut found, more, Ghost(rule_violations(*rule, *ctx, ctx.rust_files@.take(i as int))), Ghost(file_violations(*rule, *ctx, ctx.rust_files@[i as int]@)));
            }
            assert(ctx.rust_files@.take(ctx.rust_files.len() as int) =~= ctx.rust_files@);
            append_findings(&mut out, found, Ghost(all_violations(self.rules@.take(r as int), *ctx)), Ghost(rule_violations(*rule, *ctx, ctx.rust_files@)));
        }
        assert(self.rules@.take(self.rules.len() as int) =~= self.rules@);
        out
    }
}

} // verus!
