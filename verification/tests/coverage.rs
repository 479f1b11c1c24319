use spec_drift::analyzers::analyzer::DriftAnalyzer;
use spec_drift::analyzers::coverage::{extract_callable_leaf, tests_reference, MissingCoverageAnalyzer};
use spec_drift::context::{ProjectContext, SourceText};
use spec_drift::domain::{CodeFact, FactKind, Location, RuleId, Severity};

fn fact_fn(name: &str) -> CodeFact {
    CodeFact {
        location: Location::new("src/lib.rs", 1),
        kind: FactKind::Function,
        name: name.to_string(),
    }
}

fn ctx(markdown: &str, test_file: Option<&str>) -> ProjectContext {
    let md = "/tmp/proj/README.md";
    let mut ctx = ProjectContext::new("/tmp/proj");
    ctx.markdown_files.push(md.to_string());
    ctx.sources.push(SourceText { path: md.to_string(), text: markdown.to_string() });
    if let Some(t) = test_file {
        let p = "/tmp/proj/tests/api.rs";
        ctx.rust_files.push(p.to_string());
        ctx.sources.push(SourceText { path: p.to_string(), text: t.to_string() });
    }
    ctx
}

#[test]
fn flags_documented_fn_absent_from_tests() {
    let mut ctx = ctx("Call `place_order()` to submit.\n", Some("#[test] fn t() { other_fn(); }\n"));
    ctx.code_facts.push(fact_fn("place_order"));

    let divs = MissingCoverageAnalyzer.analyze(&ctx);
    assert_eq!(divs.len(), 1);
    assert_eq!(divs[0].rule, RuleId::MissingCoverage);
    assert_eq!(divs[0].severity, Severity::Notice);
}

#[test]
fn passes_when_test_mentions_symbol() {
    let mut ctx = ctx(
        "Call `place_order()` to submit.\n",
        Some("#[test] fn t() { let _ = place_order(); }\n"),
    );
    ctx.code_facts.push(fact_fn("place_order"));

    assert!(MissingCoverageAnalyzer.analyze(&ctx).is_empty());
}

#[test]
fn does_not_flag_missing_symbols() {
    // If the symbol doesn't exist at all, that's symbol_absence's job.
    let ctx = ctx("Call `ghost_fn()` to vanish.\n", Some("#[test] fn t() {}\n"));
    assert!(MissingCoverageAnalyzer.analyze(&ctx).is_empty());
}

#[test]
fn word_boundary_prevents_substring_false_positive() {
    // `new` must not match `renew`.
    let mut ctx = ctx("Call `new()`.\n", Some("#[test] fn t() { renew(); }\n"));
    ctx.code_facts.push(fact_fn("new"));

    let divs = MissingCoverageAnalyzer.analyze(&ctx);
    assert_eq!(divs.len(), 1);
}

#[test]
fn silent_when_no_tests_exist() {
    let mut ctx = ctx("Call `f()`.\n", None);
    ctx.code_facts.push(fact_fn("f"));
    // No rust_files — project has no tests yet.
    assert!(MissingCoverageAnalyzer.analyze(&ctx).is_empty());
}

#[test]
fn same_claim_twice_on_a_line_is_flagged_once() {
    let mut ctx = ctx("Call `f()` or `f()`.\n`f()` again.\n", Some("#[test] fn t() {}\n"));
    ctx.code_facts.push(fact_fn("f"));
    let divs = MissingCoverageAnalyzer.analyze(&ctx);
    assert_eq!(divs.len(), 2);
    assert_eq!(divs[0].location.line, 1);
    assert_eq!(divs[1].location.line, 2);
    assert_eq!(divs[0].stated, "`f` is a capability the project exposes");
    assert_eq!(divs[0].reality, "no test references `f` by name");
}

#[test]
fn callable_leaf_needs_a_call() {
    assert_eq!(extract_callable_leaf("Client::new()").as_deref(), Some("new"));
    assert_eq!(extract_callable_leaf("  run(x, y) ").as_deref(), Some("run"));
    assert_eq!(extract_callable_leaf("Client::new"), None);
    assert_eq!(extract_callable_leaf("a b()"), None);
}

#[test]
fn tests_reference_matches_whole_words() {
    let sources = vec!["fn t() { renew(); }".to_string(), "x.new()".to_string()];
    assert!(tests_reference(&sources, "new"));
    assert!(!tests_reference(&sources[..1].to_vec(), "new"));
    assert!(!tests_reference(&Vec::new(), "new"));
}

#[test]
fn tests_reference_escapes_the_symbol() {
    let sources = vec!["fn t() { axb(); }".to_string()];
    assert!(!tests_reference(&sources, "a.b"));
    assert!(tests_reference(&vec!["call a.b now".to_string()], "a.b"));
}
