use spec_drift::context::{text_of, ProjectContext, SourceText};
use spec_drift::domain::{CodeFact, FactKind, Location};
use spec_drift::error::SpecDriftError;

fn fact(name: &str, kind: FactKind, line: u32) -> CodeFact {
    CodeFact { location: Location::new("/p/src/lib.rs", line), kind, name: name.to_string() }
}

#[test]
fn new_context_starts_empty_at_its_root() {
    let ctx = ProjectContext::new("/p");
    assert_eq!(ctx.root, "/p");
    assert_eq!(ctx.analysis_root, "/p");
    assert!(ctx.rust_files.is_empty() && ctx.code_facts.is_empty() && ctx.sources.is_empty());
}

#[test]
fn facts_are_found_by_name_in_order() {
    let mut ctx = ProjectContext::new("/p");
    ctx.code_facts.push(fact("new", FactKind::Function, 3));
    ctx.code_facts.push(fact("Client", FactKind::Struct, 1));
    ctx.code_facts.push(fact("new", FactKind::Function, 9));
    let found = ctx.facts_named("new");
    assert_eq!(found.iter().map(|f| f.location.line).collect::<Vec<_>>(), vec![3, 9]);
    assert!(ctx.has_fact_named("Client"));
    assert!(!ctx.has_fact_named("client"));
}

#[test]
fn rel_prefers_the_analysis_root() {
    let mut ctx = ProjectContext::new("/ws");
    ctx.analysis_root = "/ws/crates/a".to_string();
    assert_eq!(ctx.rel("/ws/crates/a/src/lib.rs"), "src/lib.rs");
    assert_eq!(ctx.rel("/ws/README.md"), "README.md");
    assert_eq!(ctx.rel("/other/x.rs"), "/other/x.rs");
}

#[test]
fn sources_and_directories_are_looked_up_exactly() {
    let mut ctx = ProjectContext::new("/p");
    ctx.sources.push(SourceText { path: "/p/a.md".into(), text: "first".into() });
    ctx.sources.push(SourceText { path: "/p/a.md".into(), text: "second".into() });
    assert_eq!(ctx.source("/p/a.md").map(|s| s.as_str()), Some("first"));
    assert_eq!(ctx.source("/p/b.md"), None);
    assert_eq!(text_of(&ctx.sources, "/p/a.md").map(|s| s.as_str()), Some("first"));
    ctx.existing_dirs.push("/p/examples".into());
    assert!(ctx.dir_exists("/p/examples"));
    assert!(!ctx.dir_exists("/p/example"));
}

#[test]
fn errors_describe_themselves() {
    let io = SpecDriftError::Io { path: "a.toml".into(), message: "denied".into() };
    assert_eq!(io.describe(), "I/O error at a.toml: denied");
    let parse = SpecDriftError::RustParse { path: "x.rs".into(), message: "bad".into() };
    assert_eq!(parse.describe(), "failed to parse Rust source x.rs: bad");
    assert_eq!(SpecDriftError::Walk("loop".into()).describe(), "project walk failed: loop");
    let cfg = SpecDriftError::Config { path: "s.toml".into(), message: "unknown".into() };
    assert_eq!(cfg.describe(), "invalid config at s.toml: unknown");
}
