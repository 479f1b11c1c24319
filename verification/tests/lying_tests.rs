use spec_drift::analyzers::analyzer::DriftAnalyzer;
use spec_drift::analyzers::tests::{
    assertion_looks_negative, intent_is_negative, scan_assertions, TestsAnalyzer,
};
use spec_drift::context::{ProjectContext, RustSource};
use spec_drift::domain::{Divergence, RuleId, Severity};
use spec_drift::parsers::rust::{MacroCall, RustExpr, RustFn, RustItem, RustStmt};

fn mac(name: &str, tokens: &str) -> RustStmt {
    RustStmt::Macro(MacroCall { name: Some(name.to_string()), tokens: tokens.to_string() })
}

fn test_fn(name: &str, ident_line: u32, body: Vec<RustStmt>) -> RustItem {
    RustItem::Fn(RustFn {
        name: name.to_string(),
        line: ident_line - 1,
        ident_line,
        return_type: "()".to_string(),
        attributes: vec!["test".to_string()],
        body,
    })
}

fn run_on_items(items: Vec<RustItem>) -> Vec<Divergence> {
    let path = "/tmp/proj/lib.rs";
    let mut ctx = ProjectContext::new("/tmp/proj");
    ctx.rust_files.push(path.to_string());
    ctx.rust_syntax.push(RustSource { path: path.to_string(), parsed: Ok(items) });
    TestsAnalyzer.analyze(&ctx)
}

#[test]
fn flags_negative_name_with_only_positive_assertion() {
    // #[test] fn user_cannot_access_admin_panel() { assert!(true); }
    let divs = run_on_items(vec![test_fn(
        "user_cannot_access_admin_panel",
        3,
        vec![mac("assert", "true")],
    )]);
    assert_eq!(divs.len(), 1);
    assert_eq!(divs[0].rule, RuleId::LyingTest);
}

#[test]
fn flags_negative_name_with_no_assertions() {
    // #[test] fn rejects_invalid_payload() { let _ = 1; }
    let divs = run_on_items(vec![test_fn(
        "rejects_invalid_payload",
        3,
        vec![RustStmt::Local(Some(RustExpr::Other))],
    )]);
    assert_eq!(divs.len(), 1);
}

#[test]
fn passes_negative_name_with_is_err_assertion() {
    // let res: Result<(), ()> = Err(()); assert!(res.is_err());
    let divs = run_on_items(vec![test_fn(
        "rejects_invalid_payload",
        3,
        vec![RustStmt::Local(Some(RustExpr::Other)), mac("assert", "res . is_err ()")],
    )]);
    assert!(divs.is_empty());
}

#[test]
fn ignores_positive_tests() {
    let divs = run_on_items(vec![test_fn("builds_a_widget", 3, vec![mac("assert", "true")])]);
    assert!(divs.is_empty());
}

#[test]
fn exempts_detection_prefixed_test_names() {
    // `flags_`, `detects_`, etc. describe the analyzer's job, not the
    // subject's failure. They must not be treated as negative-path tests.
    let divs = run_on_items(vec![test_fn(
        "flags_missing_symbol_in_markdown",
        3,
        vec![RustStmt::Local(Some(RustExpr::Other)), mac("assert_eq", "found , 1")],
    )]);
    assert!(divs.is_empty());
}

#[test]
fn passes_negative_name_with_status_code_check() {
    let divs = run_on_items(vec![test_fn(
        "user_cannot_access_admin_panel",
        3,
        vec![mac("assert_eq", "status , 403")],
    )]);
    assert!(divs.is_empty());
}

#[test]
fn lying_test_divergence_names_the_test_and_its_line() {
    let divs = run_on_items(vec![test_fn("rejects_bad_input", 7, vec![mac("assert", "ok")])]);
    assert_eq!(divs.len(), 1);
    assert_eq!(divs[0].severity, Severity::Critical);
    assert_eq!(divs[0].location.line, 7);
    assert_eq!(divs[0].stated, "`rejects_bad_input` verifies a negative / failure path");
    assert_eq!(divs[0].reality, "`rejects_bad_input` only contains positive assertions");
    let empty = run_on_items(vec![test_fn("rejects_bad_input", 2, vec![])]);
    assert_eq!(empty[0].reality, "`rejects_bad_input` has no assertions");
}

#[test]
fn nested_modules_and_branches_are_scanned() {
    let inner = test_fn(
        "fails_on_empty",
        5,
        vec![RustStmt::Expr(RustExpr::If {
            then_branch: vec![],
            else_branch: Some(Box::new(RustExpr::Block(vec![mac("assert", "! ok")]))),
        })],
    );
    let module = RustItem::Mod { name: "t".to_string(), line: 1, items: Some(vec![inner]) };
    assert!(run_on_items(vec![module]).is_empty());
    let lying = test_fn(
        "fails_on_empty",
        5,
        vec![RustStmt::Expr(RustExpr::Match(vec![RustExpr::Macro(MacroCall {
            name: Some("assert".to_string()),
            tokens: "ok".to_string(),
        })]))],
    );
    assert_eq!(run_on_items(vec![lying]).len(), 1);
}

#[test]
fn non_test_functions_and_parse_failures_are_skipped() {
    let plain = RustItem::Fn(RustFn {
        name: "rejects_input".to_string(),
        line: 1,
        ident_line: 1,
        return_type: "()".to_string(),
        attributes: vec![],
        body: vec![],
    });
    assert!(run_on_items(vec![plain]).is_empty());
    let path = "/tmp/proj/broken.rs";
    let mut ctx = ProjectContext::new("/tmp/proj");
    ctx.rust_files.push(path.to_string());
    ctx.rust_syntax.push(RustSource { path: path.to_string(), parsed: Err("bad".to_string()) });
    assert!(TestsAnalyzer.analyze(&ctx).is_empty());
}

#[test]
fn intent_hints_and_detection_prefixes() {
    assert!(intent_is_negative("Returns_Error_On_Bad_Input"));
    assert!(intent_is_negative("it_panics"));
    assert!(!intent_is_negative("detects_invalid"));
    assert!(!intent_is_negative("missing_file_is_not_an_error"));
}

#[test]
fn negative_assertion_shapes() {
    assert!(assertion_looks_negative("assert_ne", "a , b"));
    assert!(assertion_looks_negative("panic", "\"boom\""));
    assert!(assertion_looks_negative("assert", "matches ! (x , Err (_))"));
    assert!(assertion_looks_negative("assert", "r . Is_None ()"));
    assert!(!assertion_looks_negative("assert", "r . is_some ()"));
}

#[test]
fn scan_counts_only_assertion_macros() {
    let stmts = vec![mac("println", "\"x\""), mac("debug_assert", "x")];
    assert_eq!(scan_assertions(&stmts), (true, false));
    assert_eq!(scan_assertions(&vec![mac("println", "\"x\"")]), (false, false));
}
