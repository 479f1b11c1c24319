use spec_drift::analyzers::analyzer::DriftAnalyzer;
use spec_drift::analyzers::ci::{inspect_cargo_line, is_workflow_path, CargoMetadata, CiAnalyzer};
use spec_drift::context::{ProjectContext, SourceText};
use spec_drift::domain::{RuleId, Severity};

fn md(packages: &[&str], bins: &[&str]) -> CargoMetadata {
    CargoMetadata {
        packages: packages.iter().map(|s| s.to_string()).collect(),
        bins: bins.iter().map(|s| s.to_string()).collect(),
    }
}

fn ctx_with(root: &str, path: &str, text: &str, makefile: bool) -> ProjectContext {
    let mut ctx = ProjectContext::new(root);
    if makefile {
        ctx.makefile_files.push(path.to_string());
    } else {
        ctx.yaml_files.push(path.to_string());
    }
    ctx.sources.push(SourceText { path: path.to_string(), text: text.to_string() });
    ctx
}

#[test]
fn flags_unknown_package_in_makefile() {
    let ctx = ctx_with("/tmp/p", "/tmp/p/Makefile", "test:\n\tcargo test --package legacy_crate\n", true);
    let analyzer = CiAnalyzer::with_metadata(md(&["spec-drift"], &["spec-drift"]));
    let divs = analyzer.analyze(&ctx);

    assert_eq!(divs.len(), 1);
    assert_eq!(divs[0].rule, RuleId::GhostCommand);
    assert_eq!(divs[0].severity, Severity::Warning);
}

#[test]
fn accepts_known_package() {
    let ctx = ctx_with("/tmp/p", "/tmp/p/Makefile", "test:\n\tcargo test --package spec-drift\n", true);
    let analyzer = CiAnalyzer::with_metadata(md(&["spec-drift"], &[]));
    assert!(analyzer.analyze(&ctx).is_empty());
}

#[test]
fn flags_unknown_bin_in_workflow() {
    let ctx = ctx_with(
        "/tmp/p",
        "/tmp/p/.github/workflows/ci.yml",
        "jobs:\n  t:\n    steps:\n      - run: cargo run --bin legacy\n",
        false,
    );
    let analyzer = CiAnalyzer::with_metadata(md(&["spec-drift"], &["spec-drift"]));
    let divs = analyzer.analyze(&ctx);

    assert_eq!(divs.len(), 1);
    assert_eq!(divs[0].rule, RuleId::GhostCommand);
}

#[test]
fn ignores_yaml_outside_github_workflows() {
    let ctx = ctx_with("/tmp/p", "/tmp/p/deploy.yml", "run: cargo run --bin legacy\n", false);
    let analyzer = CiAnalyzer::with_metadata(md(&["spec-drift"], &[]));
    assert!(analyzer.analyze(&ctx).is_empty());
}

#[test]
fn noop_when_metadata_unavailable() {
    let ctx = ctx_with("/tmp/p", "/tmp/p/Makefile", "cargo test --package ghost\n", true);
    // Empty metadata — the analyzer must fail-open, never spurious-positive.
    let analyzer = CiAnalyzer::with_metadata(md(&[], &[]));
    assert!(analyzer.analyze(&ctx).is_empty());
}

#[test]
fn default_analyzer_reads_metadata_from_the_context() {
    let mut ctx = ctx_with("/tmp/p", "/tmp/p/Makefile", "\tcargo test -p gone\n", true);
    ctx.cargo_metadata = md(&["here"], &[]);
    let divs = CiAnalyzer::new().analyze(&ctx);
    assert_eq!(divs.len(), 1);
    assert_eq!(divs[0].location.line, 1);
}

#[test]
fn unreadable_ci_file_is_skipped() {
    let mut ctx = ProjectContext::new("/tmp/p");
    ctx.makefile_files.push("/tmp/p/Makefile".to_string());
    let analyzer = CiAnalyzer::with_metadata(md(&["a"], &[]));
    assert!(analyzer.analyze(&ctx).is_empty());
}

#[test]
fn workflow_paths_need_both_components() {
    assert!(is_workflow_path("/x/.github/workflows/ci.yml"));
    assert!(!is_workflow_path("/x/.github/ci.yml"));
    assert!(!is_workflow_path("/x/workflows/ci.yml"));
}

#[test]
fn inspect_cargo_line_checks_packages_and_bins() {
    let meta = md(&["known"], &["tool"]);
    assert!(inspect_cargo_line("cargo build -p known --bin tool", "M", 1, &meta).is_empty());
    let divs = inspect_cargo_line("cargo build --package=gone --bin=old", "M", 4, &meta);
    assert_eq!(divs.len(), 2);
    assert!(divs.iter().all(|d| d.location.line == 4 && d.rule == RuleId::GhostCommand));
    assert_eq!(divs[0].stated, "CI runs `cargo` against package `gone`");
    assert_eq!(divs[1].reality, "no bin target named `old` in the workspace");
    assert!(inspect_cargo_line("echo hello", "M", 1, &meta).is_empty());
}
