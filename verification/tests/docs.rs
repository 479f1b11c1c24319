use spec_drift::analyzers::analyzer::DriftAnalyzer;
use spec_drift::analyzers::docs::{is_language_intrinsic, DocsAnalyzer};
use spec_drift::context::{ProjectContext, SourceText};
use spec_drift::domain::{CodeFact, FactKind, Location, RuleId, Severity};

fn fact(name: &str) -> CodeFact {
    CodeFact {
        location: Location::new("src/lib.rs", 1),
        kind: FactKind::Function,
        name: name.to_string(),
    }
}

fn ctx_with_markdown(text: &str) -> ProjectContext {
    let md = "/tmp/proj/README.md";
    let mut ctx = ProjectContext::new("/tmp/proj");
    ctx.markdown_files.push(md.to_string());
    ctx.sources.push(SourceText { path: md.to_string(), text: text.to_string() });
    ctx
}

#[test]
fn flags_missing_symbol_referenced_in_markdown() {
    let mut ctx = ctx_with_markdown("Use `connect_to_db()` to start.\n");
    ctx.code_facts.push(fact("init_connection"));

    let divergences = DocsAnalyzer.analyze(&ctx);
    assert_eq!(divergences.len(), 1);
    assert_eq!(divergences[0].rule, RuleId::SymbolAbsence);
    assert_eq!(divergences[0].location.line, 1);
}

#[test]
fn does_not_flag_symbol_that_exists() {
    let mut ctx = ctx_with_markdown("Use `connect_to_db()` to start.\n");
    ctx.code_facts.push(fact("connect_to_db"));

    assert!(DocsAnalyzer.analyze(&ctx).is_empty());
}

#[test]
fn ignores_language_intrinsics() {
    let ctx = ctx_with_markdown("Returns `Option<String>` on failure.\n");
    // No code facts — but Option/String are intrinsics so must not flag.
    assert!(DocsAnalyzer.analyze(&ctx).is_empty());
}

#[test]
fn resolves_method_path_by_leaf() {
    let mut ctx = ctx_with_markdown("Call `Client::new()` to build.\n");
    ctx.code_facts.push(fact("new"));

    assert!(DocsAnalyzer.analyze(&ctx).is_empty());
}

#[test]
fn missing_symbol_divergence_reads_as_the_report_expects() {
    let ctx = ctx_with_markdown("Intro.\n\nCall `Client::connect()` now.\n");
    let divs = DocsAnalyzer.analyze(&ctx);
    assert_eq!(divs.len(), 1);
    assert_eq!(divs[0].severity, Severity::Critical);
    assert_eq!(divs[0].location.line, 3);
    assert_eq!(divs[0].stated, "`Client::connect` exists in the codebase");
    assert_eq!(divs[0].reality, "no symbol named `connect` found in the parsed Rust sources");
}

#[test]
fn prose_spans_and_unread_files_are_not_claims() {
    let ctx = ctx_with_markdown("Run `cargo test --all` first.\n");
    assert!(DocsAnalyzer.analyze(&ctx).is_empty());
    let mut unread = ProjectContext::new("/tmp/proj");
    unread.markdown_files.push("/tmp/proj/GONE.md".to_string());
    assert!(DocsAnalyzer.analyze(&unread).is_empty());
}

#[test]
fn intrinsics_cover_primitives_and_keywords() {
    assert!(is_language_intrinsic("u64"));
    assert!(is_language_intrinsic("Self"));
    assert!(!is_language_intrinsic("connect_to_db"));
}
