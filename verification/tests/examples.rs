use spec_drift::analyzers::analyzer::DriftAnalyzer;
use spec_drift::analyzers::deprecated::{is_deprecated_code, parse_clippy_messages, DeprecatedUsageAnalyzer};
use spec_drift::analyzers::examples::{
    parse_cargo_messages, CargoMessage, CargoRunner, CompilerMessage, DiagSpan, ExamplesAnalyzer,
};
use spec_drift::context::ProjectContext;
use spec_drift::domain::{RuleId, Severity};

fn message(text: &str, level: &str, code: Option<&str>, file: &str, line: u32) -> CargoMessage {
    CargoMessage::CompilerMessage(CompilerMessage {
        message: text.to_string(),
        level: level.to_string(),
        code: code.map(|c| c.to_string()),
        spans: vec![DiagSpan { file_name: file.to_string(), line_start: line, is_primary: true }],
    })
}

struct FakeRunner(Vec<CargoMessage>);
impl CargoRunner for FakeRunner {
    fn check_examples(&self, _: &str) -> Result<Vec<CargoMessage>, String> {
        Ok(self.0.clone())
    }
    fn clippy_examples(&self, _: &str) -> Result<Vec<CargoMessage>, String> {
        Ok(self.0.clone())
    }
}

struct FailingRunner;
impl CargoRunner for FailingRunner {
    fn check_examples(&self, _: &str) -> Result<Vec<CargoMessage>, String> {
        Err("cargo not found".to_string())
    }
}

fn ctx_with_examples(root: &str) -> ProjectContext {
    let mut ctx = ProjectContext::new(root);
    ctx.existing_dirs.push(format!("{root}/examples"));
    ctx
}

#[test]
fn flags_compile_error_in_examples_dir() {
    let ctx = ctx_with_examples("/tmp/proj");
    let analyzer = ExamplesAnalyzer::with_runner(Box::new(FakeRunner(vec![message(
        "mismatched types",
        "error",
        None,
        "examples/demo.rs",
        7,
    )])));
    let divergences = analyzer.analyze(&ctx);

    assert_eq!(divergences.len(), 1);
    let d = &divergences[0];
    assert_eq!(d.rule, RuleId::CompileFailure);
    assert_eq!(d.severity, Severity::Critical);
    assert_eq!(d.location.line, 7);
    assert_eq!(d.location.file, "examples/demo.rs");
    assert_eq!(d.stated, "`examples/demo.rs` demonstrates the current API");
    assert_eq!(d.reality, "`cargo check --examples` fails: mismatched types");
}

#[test]
fn package_examples_are_reported_relative_to_workspace_root() {
    let mut ctx = ProjectContext::new("/tmp/ws");
    ctx.analysis_root = "/tmp/ws/crates/api".to_string();
    ctx.existing_dirs.push("/tmp/ws/crates/api/examples".to_string());
    let analyzer = ExamplesAnalyzer::with_runner(Box::new(FakeRunner(vec![message(
        "mismatched types",
        "error",
        None,
        "examples/demo.rs",
        4,
    )])));
    let divergences = analyzer.analyze(&ctx);

    assert_eq!(divergences.len(), 1);
    assert_eq!(divergences[0].location.file, "crates/api/examples/demo.rs");
}

#[test]
fn ignores_errors_outside_examples_dir() {
    let ctx = ctx_with_examples("/tmp/proj");
    let analyzer = ExamplesAnalyzer::with_runner(Box::new(FakeRunner(vec![message(
        "oops", "error", None, "src/lib.rs", 1,
    )])));
    assert!(analyzer.analyze(&ctx).is_empty());
}

#[test]
fn skips_cleanly_when_no_examples_dir() {
    let analyzer = ExamplesAnalyzer::with_runner(Box::new(FakeRunner(vec![message(
        "x", "error", None, "examples/a.rs", 1,
    )])));
    let ctx = ProjectContext::new("/tmp/proj");
    assert!(analyzer.analyze(&ctx).is_empty());
}

#[test]
fn ignores_warning_level_messages() {
    let ctx = ctx_with_examples("/tmp/proj");
    let analyzer = ExamplesAnalyzer::with_runner(Box::new(FakeRunner(vec![message(
        "unused import",
        "warning",
        None,
        "examples/demo.rs",
        3,
    )])));
    assert!(analyzer.analyze(&ctx).is_empty());
}

#[test]
fn runner_failure_yields_nothing() {
    let ctx = ctx_with_examples("/tmp/proj");
    let analyzer = ExamplesAnalyzer::with_runner(Box::new(FailingRunner));
    assert!(analyzer.analyze(&ctx).is_empty());
}

#[test]
fn primary_span_wins_and_absolute_paths_are_made_relative() {
    let msg = CargoMessage::CompilerMessage(CompilerMessage {
        message: "boom".to_string(),
        level: "error".to_string(),
        code: None,
        spans: vec![
            DiagSpan { file_name: "src/lib.rs".to_string(), line_start: 1, is_primary: false },
            DiagSpan {
                file_name: "/tmp/proj/examples/b.rs".to_string(),
                line_start: 9,
                is_primary: true,
            },
        ],
    });
    let out = parse_cargo_messages(&vec![msg, CargoMessage::Other], "/tmp/proj", "/tmp/proj");
    assert_eq!(out.len(), 1);
    assert_eq!(out[0].location.file, "examples/b.rs");
    assert_eq!(out[0].location.line, 9);
}

#[test]
fn flags_deprecated_warning_in_example() {
    let ctx = ctx_with_examples("/tmp/proj");
    let analyzer = DeprecatedUsageAnalyzer::with_runner(Box::new(FakeRunner(vec![message(
        "use of deprecated function",
        "warning",
        Some("deprecated"),
        "examples/demo.rs",
        12,
    )])));
    let divs = analyzer.analyze(&ctx);

    assert_eq!(divs.len(), 1);
    assert_eq!(divs[0].rule, RuleId::DeprecatedUsage);
    assert_eq!(divs[0].severity, Severity::Warning);
    assert_eq!(divs[0].location.line, 12);
}

#[test]
fn ignores_non_deprecated_warnings() {
    let ctx = ctx_with_examples("/tmp/proj");
    let analyzer = DeprecatedUsageAnalyzer::with_runner(Box::new(FakeRunner(vec![message(
        "unused import",
        "warning",
        Some("unused_imports"),
        "examples/demo.rs",
        3,
    )])));
    assert!(analyzer.analyze(&ctx).is_empty());
}

#[test]
fn ignores_deprecated_outside_examples_dir() {
    let ctx = ctx_with_examples("/tmp/proj");
    let analyzer = DeprecatedUsageAnalyzer::with_runner(Box::new(FakeRunner(vec![message(
        "deprecated",
        "warning",
        Some("deprecated"),
        "src/lib.rs",
        1,
    )])));
    assert!(analyzer.analyze(&ctx).is_empty());
}

#[test]
fn noop_when_no_examples_dir() {
    let analyzer = DeprecatedUsageAnalyzer::with_runner(Box::new(FakeRunner(vec![message(
        "deprecated",
        "warning",
        Some("deprecated"),
        "examples/a.rs",
        1,
    )])));
    let ctx = ProjectContext::new("/tmp/proj");
    assert!(analyzer.analyze(&ctx).is_empty());
}

#[test]
fn deprecation_codes() {
    assert!(is_deprecated_code("deprecated"));
    assert!(is_deprecated_code("deprecated_in_future"));
    assert!(is_deprecated_code("clippy::deprecated_cfg_attr"));
    assert!(!is_deprecated_code("unused_imports"));
}

#[test]
fn clippy_messages_need_a_deprecation_code() {
    let msgs = vec![
        message("old", "warning", Some("deprecated"), "examples/a.rs", 2),
        message("unused", "warning", Some("unused"), "examples/a.rs", 3),
        message("no code", "warning", None, "examples/a.rs", 4),
    ];
    let out = parse_clippy_messages(&msgs, "/tmp/proj");
    assert_eq!(out.len(), 1);
    assert_eq!(out[0].location.line, 2);
}
