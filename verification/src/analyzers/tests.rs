//! `lying_test`: tests named for a failure path that assert nothing negative.
use vstd::prelude::*;
use crate::analyzers::analyzer::DriftAnalyzer;
use crate::analyzers::constraint::{append_findings, opt_seq, push_finding, syntax_for, syntax_of, without_whitespace, normalize};
use crate::context::ProjectContext;
use crate::domain::{are_findings, finding, is_finding, Divergence, Finding, RuleId, Severity};
use crate::parsers::rust::{MacroCall, RustExpr, RustFn, RustItem, RustStmt};
use crate::text::{chars_of, contains, contains_seq, has_prefix, lower_chars, lower_seq, push_str, starts_with, str_eq};

verus! {

/// TestsAnalyzer — enforces the `lying_test` rule (heuristic).
///
/// A test that *names* a negative assertion (contains "cannot", "rejects",
/// "forbidden", "returns_error", "fails", ...) but has a body that only makes
/// positive assertions, or no assertions at all, is almost certainly lying.
/// The heuristic only fires when intent and assertion plainly disagree.
pub struct TestsAnalyzer;

/// Names describing a detector doing its job, not a failure path.
pub open spec fn detection_name(n: Seq<char>) -> bool {
    has_prefix(n, "flags_"@)
        || has_prefix(n, "detects_"@)
        || has_prefix(n, "finds_"@)
        || has_prefix(n, "reports_"@)
        || has_prefix(n, "surfaces_"@)
        || has_prefix(n, "identifies_"@)
        || has_prefix(n, "catches_"@)
        || has_prefix(n, "warns_"@)
        || has_prefix(n, "does_not_"@)
        || has_prefix(n, "doesnt_"@)
}

/// Words that announce a negative / failure path.
pub open spec fn negative_hint(n: Seq<char>) -> bool {
    contains_seq(n, "cannot"@)
        || contains_seq(n, "rejects"@)
        || contains_seq(n, "forbidden"@)
        || contains_seq(n, "unauthorized"@)
        || contains_seq(n, "denied"@)
        || contains_seq(n, "returns_error"@)
        || contains_seq(n, "returns_err"@)
        || contains_seq(n, "fails"@)
        || contains_seq(n, "invalid"@)
        || contains_seq(n, "not_allowed"@)
        || contains_seq(n, "panics"@)
}

/// A test name announcing a negative path (ASCII case ignored), unless it
/// names a detection.
pub open spec fn intent_negative(name: Seq<char>) -> bool {
    let n = lower_seq(name);
    !detection_name(n) && negative_hint(n)
}

pub fn intent_is_negative(name: &str) -> (b: bool)
    ensures
        b == intent_negative(name@),
{
    let n = lower_chars(&chars_of(name));
    let detection = starts_with(&n, &chars_of("flags_"))
        || starts_with(&n, &chars_of("detects_"))
        || starts_with(&n, &chars_of("finds_"))
        || starts_with(&n, &chars_of("reports_"))
        || starts_with(&n, &chars_of("surfaces_"))
        || starts_with(&n, &chars_of("identifies_"))
        || starts_with(&n, &chars_of("catches_"))
        || starts_with(&n, &chars_of("warns_"))
        || starts_with(&n, &chars_of("does_not_"))
        || starts_with(&n, &chars_of("doesnt_"));
    if detection {
        return false;
    }
    contains(&n, &chars_of("cannot"))
        || contains(&n, &chars_of("rejects"))
        || contains(&n, &chars_of("forbidden"))
        || contains(&n, &chars_of("unauthorized"))
        || contains(&n, &chars_of("denied"))
        || contains(&n, &chars_of("returns_error"))
        || contains(&n, &chars_of("returns_err"))
        || contains(&n, &chars_of("fails"))
        || contains(&n, &chars_of("invalid"))
        || contains(&n, &chars_of("not_allowed"))
        || contains(&n, &chars_of("panics"))
}

/// The macros counted as assertions.
pub open spec fn assertion_macro(name: Seq<char>) -> bool {
    name == "assert"@
        || name == "assert_eq"@
        || name == "assert_ne"@
        || name == "debug_assert"@
        || name == "debug_assert_eq"@
        || name == "debug_assert_ne"@
        || name == "panic"@
}

fn is_assertion_macro(name: &str) -> (b: bool)
    ensures
        b == assertion_macro(name@),
{
    str_eq(name, "assert")
        || str_eq(name, "assert_eq")
        || str_eq(name, "assert_ne")
        || str_eq(name, "debug_assert")
        || str_eq(name, "debug_assert_eq")
        || str_eq(name, "debug_assert_ne")
        || str_eq(name, "panic")
}

/// An assertion that checks a failure: `assert_ne!`, `panic!`, or tokens
/// (whitespace dropped, ASCII lowercased) that negate, test for an error or
/// absence, match a pattern, or compare with an HTTP error status.
pub open spec fn looks_negative(name: Seq<char>, tokens: Seq<char>) -> bool {
    let t = lower_seq(without_whitespace(tokens));
    ||| name == "assert_ne"@
    ||| name == "panic"@
    ||| (t.len() > 0 && t[0] == '!')
    ||| contains_seq(t, ".is_err"@)
        || contains_seq(t, ".is_none"@)
        || contains_seq(t, "matches!("@)
        || contains_seq(t, "err("@)
        || contains_seq(t, ".is_not_"@)
        || contains_seq(t, "403"@)
        || contains_seq(t, "401"@)
        || contains_seq(t, "404"@)
}

pub fn assertion_looks_negative(name: &str, tokens: &str) -> (b: bool)
    ensures
        b == looks_negative(name@, tokens@),
{
    if str_eq(name, "assert_ne") || str_eq(name, "panic") {
        return true;
    }
    let t = lower_chars(&chars_of(normalize(tokens).as_str()));
    (t.len() > 0 && t[0] == '!') || contains(&t, &chars_of(".is_err"))
        || contains(&t, &chars_of(".is_none"))
        || contains(&t, &chars_of("matches!("))
        || contains(&t, &chars_of("err("))
        || contains(&t, &chars_of(".is_not_"))
        || contains(&t, &chars_of("403"))
        || contains(&t, &chars_of("401"))
        || contains(&t, &chars_of("404"))
}

/// What a part of a test body contributes: whether it holds an assertion,
/// and whether one of them looks negative.
pub open spec fn both(a: (bool, bool), b: (bool, bool)) -> (bool, bool) {
    (a.0 || b.0, a.1 || b.1)
}

pub open spec fn macro_effect(m: MacroCall) -> (bool, bool) {
    match m.name {
        None => (false, false),
        Some(n) => if assertion_macro(n@) {
            (true, looks_negative(n@, m.tokens@))
        } else {
            (false, false)
        },
    }
}

pub open spec fn stmt_effect(s: RustStmt) -> (bool, bool)
    decreases s, 2nat,
{
    match s {
        RustStmt::Expr(e) => expr_effect(e),
        RustStmt::Local(init) => match init {
            Some(e) => expr_effect(e),
            None => (false, false),
        },
        RustStmt::Macro(m) => macro_effect(m),
        RustStmt::Other => (false, false),
    }
}

pub open spec fn expr_effect(e: RustExpr) -> (bool, bool)
    decreases e, 2nat,
{
    match e {
        RustExpr::Macro(m) => macro_effect(m),
        RustExpr::Block(v) => stmts_effect(v@),
        RustExpr::If { then_branch, else_branch } => both(
            stmts_effect(then_branch@),
            match else_branch {
                Some(b) => expr_effect(*b),
                None => (false, false),
            },
        ),
        RustExpr::Match(arms) => exprs_effect(arms@),
        RustExpr::Other => (false, false),
    }
}

pub open spec fn stmts_effect(s: Seq<RustStmt>) -> (bool, bool)
    decreases s, 1nat,
{
    if s.len() == 0 {
        (false, false)
    } else {
        both(stmts_effect(s.drop_last()), stmt_effect(s.last()))
    }
}

pub open spec fn exprs_effect(s: Seq<RustExpr>) -> (bool, bool)
    decreases s, 1nat,
{
    if s.len() == 0 {
        (false, false)
    } else {
        both(exprs_effect(s.drop_last()), expr_effect(s.last()))
    }
}

fn macro_scan(m: &MacroCall) -> (r: (bool, bool))
    ensures
        r == macro_effect(*m),
{
    match &m.name {
        None => (false, false),
        Some(n) => if is_assertion_macro(n.as_str()) {
            (true, assertion_looks_negative(n.as_str(), m.tokens.as_str()))
        } else {
            (false, false)
        },
    }
}

fn stmt_scan(s: &RustStmt) -> (r: (bool, bool))
    ensures
        r == stmt_effect(*s),
    decreases s, 2nat,
{
    match s {
        RustStmt::Expr(e) => expr_scan(e),
        RustStmt::Local(init) => match init {
            Some(e) => expr_scan(e),
            None => (false, false),
        },
        RustStmt::Macro(m) => macro_scan(m),
        RustStmt::Other => (false, false),
    }
}

fn expr_scan(e: &RustExpr) -> (r: (bool, bool))
    ensures
        r == expr_effect(*e),
    decreases e, 2nat,
{
    match e {
        RustExpr::Macro(m) => macro_scan(m),
        RustExpr::Block(v) => stmts_scan(v),
        RustExpr::If { then_branch, else_branch } => {
            let a = stmts_scan(then_branch);
            let b = match else_branch {
                Some(x) => expr_scan(x),
                None => (false, false),
            };
            (a.0 || b.0, a.1 || b.1)
        },
        RustExpr::Match(arms) => exprs_scan(arms),
        RustExpr::Other => (false, false),
    }
}

fn stmts_scan(v: &Vec<RustStmt>) -> (r: (bool, bool))
    ensures
        r == stmts_effect(v@),
    decreases v, 1nat,
{
    let mut acc = (false, false);
    for i in 0..v.len()
        invariant
            acc == stmts_effect(v@.take(i as int)),
    {
        assert(v@.take(i + 1).drop_last() =~= v@.take(i as int));
        let x = stmt_scan(&v[i]);
        acc = (acc.0 || x.0, acc.1 || x.1);
    }
    assert(v@.take(v.len() as int) =~= v@);
    acc
}

fn exprs_scan(v: &Vec<RustExpr>) -> (r: (bool, bool))
    ensures
        r == exprs_effect(v@),
    decreases v, 1nat,
{
    let mut acc = (false, false);
    for i in 0..v.len()
        invariant
            acc == exprs_effect(v@.take(i as int)),
    {
        assert(v@.take(i + 1).drop_last() =~= v@.take(i as int));
        let x = expr_scan(&v[i]);
        acc = (acc.0 || x.0, acc.1 || x.1);
    }
    assert(v@.take(v.len() as int) =~= v@);
    acc
}

/// Whether a test body asserts anything, and whether some assertion looks
/// negative.
pub fn scan_assertions(stmts: &Vec<RustStmt>) -> (r: (bool, bool))
    ensures
        r == stmts_effect(stmts@),
{
    stmts_scan(stmts)
}

/// The divergence for a test function, if its name and body disagree.
pub open spec fn test_finding(path: Seq<char>, f: RustFn) -> Option<Finding> {
    let (any, negative) = stmts_effect(f.body@);
    if !intent_negative(f.name@) || (any && negative) {
        None
    } else {
        Some(
            Finding {
                rule: RuleId::LyingTest,
                severity: Severity::Critical,
                file: path,
                line: f.ident_line,
                stated: "`"@ + f.name@ + "` verifies a negative / failure path"@,
                reality: "`"@ + f.name@ + "` "@ + if !any {
                    "has no assertions"@
                } else {
                    "only contains positive assertions"@
                },
                risk: "The test is green but proves nothing about the stated contract."@,
            },
        )
    }
}

fn inspect_test(f: &RustFn, path: &str) -> (r: Option<Divergence>)
    ensures
        match test_finding(path@, *f) {
            Some(x) => r matches Some(d) && is_finding(d, x),
            None => r is None,
        },
{
    if !intent_is_negative(f.name.as_str()) {
        return None;
    }
    let (any, negative) = scan_assertions(&f.body);
    if any && negative {
        return None;
    }
    let mut stated = String::new();
    push_str(&mut stated, "`");
    push_str(&mut stated, f.name.as_str());
    push_str(&mut stated, "` verifies a negative / failure path");
    let mut reality = String::new();
    push_str(&mut reality, "`");
    push_str(&mut reality, f.name.as_str());
    push_str(&mut reality, "` ");
    if !any {
        push_str(&mut reality, "has no assertions");
    } else {
        push_str(&mut reality, "only contains positive assertions");
    }
    Some(finding(RuleId::LyingTest, Severity::Critical, path, f.ident_line, stated, reality, "The test is green but proves nothing about the stated contract."))
}

/// A function carrying a `#[test]` attribute (by its last path segment).
pub open spec fn test_fn(f: RustFn) -> bool {
    f.attributes@.map_values(|a: String| a@).contains("test"@)
}

pub fn is_test_fn(f: &RustFn) -> (b: bool)
    ensures
        b == test_fn(*f),
{
    let ghost names = f.attributes@.map_values(|a: String| a@);
    for k in 0..f.attributes.len()
        invariant
            names == f.attributes@.map_values(|a: String| a@),
            forall|j: int| 0 <= j < k ==> names[j] != "test"@,
    {
        if str_eq(f.attributes[k].as_str(), "test") {
            assert(names[k as int] == "test"@);
            return true;
        }
    }
    false
}

/// The lying tests among the free functions of `items`, inline modules
/// included.
pub open spec fn item_lies(path: Seq<char>, item: RustItem) -> Seq<Finding>
    decreases item, 1nat,
{
    match item {
        RustItem::Fn(f) => if test_fn(f) {
            opt_seq(test_finding(path, f))
        } else {
            Seq::empty()
        },
        RustItem::Mod { name, line, items } => match items {
            Some(v) => items_lies(path, v@),
            None => Seq::empty(),
        },
        _ => Seq::empty(),
    }
}

pub open spec fn items_lies(path: Seq<char>, items: Seq<RustItem>) -> Seq<Finding>
    decreases items, 0nat,
{
    if items.len() == 0 {
        Seq::empty()
    } else {
        items_lies(path, items.drop_last()) + item_lies(path, items.last())
    }
}

fn visit_item(item: &RustItem, path: &str) -> (r: Vec<Divergence>)
    ensures
        are_findings(r@, item_lies(path@, *item)),
    decreases item, 1nat,
{
    match item {
        RustItem::Fn(f) => {
            let mut out: Vec<Divergence> = Vec::new();
            if is_test_fn(f) {
                let d = inspect_test(f, path);
                push_finding(&mut out, d, Ghost(Seq::empty()), Ghost(test_finding(path@, *f)));
                assert(Seq::<Finding>::empty() + opt_seq(test_finding(path@, *f)) =~= item_lies(path@, *item));
            }
            out
        },
        RustItem::Mod { name: _, line: _, items } => match items {
            Some(v) => visit_items(v, path),
            None => Vec::new(),
        },
        _ => Vec::new(),
    }
}

/// The lying tests of a list of items.
pub fn visit_items(items: &Vec<RustItem>, path: &str) -> (r: Vec<Divergence>)
    ensures
        are_findings(r@, items_lies(path@, items@)),
    decreases items, 0nat,
{
    let mut out: Vec<Divergence> = Vec::new();
    for i in 0..items.len()
        invariant
            are_findings(out@, items_lies(path@, items@.take(i as int))),
    {
        assert(items@.take(i + 1).drop_last() =~= items@.take(i as int));
        let more = visit_item(&items[i], path);
        append_findings(&mut out, more, Ghost(items_lies(path@, items@.take(i as int))), Ghost(item_lies(path@, items@[i as int])));
    }
    assert(items@.take(items.len() as int) =~= items@);
    out
}

/// The lying tests of the Rust files that parsed, file by file.
pub open spec fn files_lies(files: Seq<String>, ctx: ProjectContext) -> Seq<Finding>
    decreases files.len(),
{
    if files.len() == 0 {
        Seq::empty()
    } else {
        files_lies(files.drop_last(), ctx) + match syntax_for(ctx.rust_syntax@, files.last()@) {
            Some(src) => match src.parsed {
                Ok(items) => items_lies(files.last()@, items@),
                Err(_) => Seq::empty(),
            },
            None => Seq::empty(),
        }
    }
}

impl DriftAnalyzer for TestsAnalyzer {
    fn id(&self) -> (s: &'static str)
        ensures
            s@ == "lying_test"@,
    {
        "lying_test"
    }

    fn analyze(&self, ctx: &ProjectContext) -> (out: Vec<Divergence>)
        ensures
            are_findings(out@, files_lies(ctx.rust_files@, *ctx)),
    {
        let mut out: Vec<Divergence> = Vec::new();
        for i in 0..ctx.rust_files.len()
            invariant
                are_findings(out@, files_lies(ctx.rust_files@.take(i as int), *ctx)),
        {
            assert(ctx.rust_files@.take(i + 1).drop_last() =~= ctx.rust_files@.take(i as int));
            let path = ctx.rust_files[i].as_str();
            let more = match syntax_of(&ctx.rust_syntax, path) {
                Some(src) => match &src.parsed {
                    Ok(items) => visit_items(items, path),
                    Err(_) => Vec::new(),
                },
                None => Vec::new(),
            };
            append_findings(&mut out, more, Ghost(files_lies(ctx.rust_files@.take(i as int), *ctx)), Ghost(match syntax_for(ctx.rust_syntax@, path@) {
                Some(src) => match src.parsed {
                    Ok(items) => items_lies(path@, items@),
                    Err(_) => Seq::empty(),
                },
                None => Seq::empty(),
            }));
        }
        assert(ctx.rust_files@.take(ctx.rust_files.len() as int) =~= ctx.rust_files@);
        out
    }
}

/// A body asserts whatever any one of its statements asserts.
pub proof fn lemma_stmts_effect_covers(s: Seq<RustStmt>, k: int)
    requires
        0 <= k < s.len(),
    ensures
        stmt_effect(s[k]).0 ==> stmts_effect(s).0,
        stmt_effect(s[k]).1 ==> stmts_effect(s).1,
    decreases s.len(),
{
    if k < s.len() - 1 {
        lemma_stmts_effect_covers(s.drop_last(), k);
        assert(s.drop_last()[k] == s[k]);
    }
}

/// The arms of a `match` assert whatever any one arm asserts.
pub proof fn lemma_exprs_effect_covers(s: Seq<RustExpr>, k: int)
    requires
        0 <= k < s.len(),
    ensures
        expr_effect(s[k]).0 ==> exprs_effect(s).0,
        expr_effect(s[k]).1 ==> exprs_effect(s).1,
    decreases s.len(),
{
    if k < s.len() - 1 {
        lemma_exprs_effect_covers(s.drop_last(), k);
        assert(s.drop_last()[k] == s[k]);
    }
}

/// An assertion macro (`assert!`, `assert_eq!`, `assert_ne!`, their
/// `debug_` forms, `panic!`) in an arm of a `match` that a test body runs,
/// as a statement or as a `let` initializer, is an assertion of that body:
/// a negatively named test is then never reported as having no assertions,
/// and when the arm is a `panic!` or an `assert_ne!` it is not reported at
/// all.
pub proof fn lemma_match_arm_assertions_count(path: Seq<char>, f: RustFn, k: int, arms: Vec<RustExpr>, j: int, m: MacroCall, n: String)
    requires
        0 <= k < f.body@.len(),
        f.body@[k] == RustStmt::Expr(RustExpr::Match(arms)) || f.body@[k] == RustStmt::Local(Some(RustExpr::Match(arms))),
        0 <= j < arms@.len(),
        arms@[j] == RustExpr::Macro(m),
        m.name == Some(n),
        n@ == "assert"@ || n@ == "assert_eq"@ || n@ == "assert_ne"@ || n@ == "debug_assert"@ || n@ == "debug_assert_eq"@
            || n@ == "debug_assert_ne"@ || n@ == "panic"@,
    ensures
        stmts_effect(f.body@).0,
        match test_finding(path, f) {
            Some(x) => x.reality == "`"@ + f.name@ + "` "@ + "only contains positive assertions"@,
            None => true,
        },
        (n@ == "panic"@ || n@ == "assert_ne"@) ==> item_lies(path, RustItem::Fn(f)) == Seq::<Finding>::empty(),
{
    assert(expr_effect(arms@[j]) == macro_effect(m));
    lemma_exprs_effect_covers(arms@, j);
    assert(expr_effect(RustExpr::Match(arms)) == exprs_effect(arms@));
    lemma_stmts_effect_covers(f.body@, k);
    if n@ == "panic"@ || n@ == "assert_ne"@ {
        assert(looks_negative(n@, m.tokens@));
        assert(stmts_effect(f.body@).1);
        assert(test_finding(path, f) is None);
        assert(opt_seq(test_finding(path, f)) =~= Seq::<Finding>::empty());
    }
}

/// An assertion macro that a test body runs directly, in a block, or in
/// either branch of an `if`, is an assertion of that body; a `panic!` or
/// `assert_ne!` there is one that checks the failure path.
pub proof fn lemma_assertions_in_blocks_and_branches_count(body: Seq<RustStmt>, k: int, inner: Vec<RustStmt>, j: int, m: MacroCall, n: String)
    requires
        0 <= k < body.len(),
        0 <= j < inner@.len(),
        inner@[j] == RustStmt::Macro(m) || inner@[j] == RustStmt::Expr(RustExpr::Macro(m)),
        ({
            ||| body[k] == RustStmt::Expr(RustExpr::Block(inner))
            ||| exists|other: Option<Box<RustExpr>>| body[k] == RustStmt::Expr(RustExpr::If { then_branch: inner, else_branch: other })
            ||| exists|cond: Vec<RustStmt>| body[k] == RustStmt::Expr(RustExpr::If { then_branch: cond, else_branch: Some(Box::new(RustExpr::Block(inner))) })
            ||| body[k] == RustStmt::Macro(m)
        }),
        m.name == Some(n),
        n@ == "assert"@ || n@ == "assert_eq"@ || n@ == "assert_ne"@ || n@ == "debug_assert"@ || n@ == "debug_assert_eq"@
            || n@ == "debug_assert_ne"@ || n@ == "panic"@,
    ensures
        stmts_effect(body).0,
        (n@ == "panic"@ || n@ == "assert_ne"@) ==> stmts_effect(body).1,
{
    assert(stmt_effect(inner@[j]) == macro_effect(m));
    lemma_stmts_effect_covers(inner@, j);
    if n@ == "panic"@ || n@ == "assert_ne"@ {
        assert(looks_negative(n@, m.tokens@));
    }
    assert(expr_effect(RustExpr::Block(inner)) == stmts_effect(inner@));
    lemma_stmts_effect_covers(body, k);
}

} // verus!
