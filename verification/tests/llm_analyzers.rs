use spec_drift::analyzers::analyzer::DriftAnalyzer;
use spec_drift::analyzers::logic_gap::{logic_gap_divergence, read_narrative, render_prompt, LogicGapAnalyzer};
use spec_drift::analyzers::outdated_logic::{outdated_divergence, render_user_prompt, OutdatedLogicAnalyzer};
use spec_drift::context::{ProjectContext, SourceText};
use spec_drift::domain::{CodeFact, FactKind, Location, RuleId, Severity};
use spec_drift::llm::{LlmClient, LlmVerdict};
use std::sync::atomic::{AtomicBool, Ordering};
use std::sync::Arc;

struct FakeClient {
    verdict: LlmVerdict,
    was_called: AtomicBool,
}

impl FakeClient {
    fn new(match_spec: bool, reason: &str) -> FakeClient {
        FakeClient {
            verdict: LlmVerdict { match_spec, reason: reason.to_string() },
            was_called: AtomicBool::new(false),
        }
    }
}

impl LlmClient for FakeClient {
    fn evaluate(&self, _: &str, _: &str) -> Option<LlmVerdict> {
        self.was_called.store(true, Ordering::Release);
        Some(self.verdict.clone())
    }
}

struct NullClient;
impl LlmClient for NullClient {
    fn evaluate(&self, _: &str, _: &str) -> Option<LlmVerdict> {
        None
    }
}

fn fn_fact(name: &str, file: &str, line: u32) -> CodeFact {
    CodeFact { location: Location::new(file, line), kind: FactKind::Function, name: name.to_string() }
}

fn example_ctx(file_text: &str, facts: &[&str]) -> ProjectContext {
    let demo = "/tmp/proj/examples/demo.rs";
    let mut ctx = ProjectContext::new("/tmp/proj");
    ctx.rust_files.push(demo.to_string());
    ctx.sources.push(SourceText { path: demo.to_string(), text: file_text.to_string() });
    for f in facts {
        ctx.code_facts.push(fn_fact(f, "src/lib.rs", 1));
    }
    ctx
}

fn setup_example(narrative: &str) -> ProjectContext {
    example_ctx(&format!("//! {narrative}\n\nfn main() {{}}\n"), &["current_api"])
}

#[test]
fn flags_when_model_says_gap() {
    let ctx = setup_example("Demonstrates the legacy connect() flow (3-step handshake).");
    let client = Arc::new(FakeClient::new(
        false,
        "connect() no longer exists; API now uses current_api()",
    ));
    let divs = LogicGapAnalyzer::new(client).analyze(&ctx);
    assert_eq!(divs.len(), 1);
    assert_eq!(divs[0].rule, RuleId::LogicGap);
    assert_eq!(divs[0].severity, Severity::Notice);
}

#[test]
fn logic_gap_silent_when_model_says_match() {
    let ctx = setup_example("Demonstrates the current_api() flow.");
    let client = Arc::new(FakeClient::new(true, "ok"));
    assert!(LogicGapAnalyzer::new(client).analyze(&ctx).is_empty());
}

#[test]
fn logic_gap_silent_when_client_is_null() {
    let ctx = setup_example("Demonstrates anything at all.");
    assert!(LogicGapAnalyzer::new(Arc::new(NullClient)).analyze(&ctx).is_empty());
}

#[test]
fn skips_examples_with_no_narrative() {
    let ctx = example_ctx("fn main() {}\n", &["x"]);
    let client = Arc::new(FakeClient::new(false, "would fire"));
    assert!(LogicGapAnalyzer::new(client).analyze(&ctx).is_empty());
}

#[test]
fn silent_when_library_has_no_public_functions() {
    let ctx = example_ctx("//! narrative narrative narrative narrative\nfn main(){}\n", &[]);
    let client = Arc::new(FakeClient::new(false, "would fire"));
    assert!(LogicGapAnalyzer::new(client).analyze(&ctx).is_empty());
}

#[test]
fn non_example_files_are_not_asked_about() {
    let mut ctx = ProjectContext::new("/tmp/proj");
    let lib = "/tmp/proj/src/lib.rs";
    ctx.rust_files.push(lib.to_string());
    ctx.sources.push(SourceText { path: lib.to_string(), text: "//! A long enough narrative here.\n".to_string() });
    ctx.code_facts.push(fn_fact("f", "src/other.rs", 1));
    let client = Arc::new(FakeClient::new(false, "gap"));
    assert!(LogicGapAnalyzer::new(client.clone()).analyze(&ctx).is_empty());
    assert!(!client.was_called.load(Ordering::Acquire));
}

#[test]
fn narrative_is_read_from_leading_comments() {
    assert_eq!(
        read_narrative("//! First line of text.\n\n// Second line.\nfn main() {}\n").as_deref(),
        Some("First line of text.\n\nSecond line.")
    );
    assert_eq!(read_narrative("//! short\n"), None);
    assert_eq!(read_narrative("fn main() {}\n//! late comment that is long\n"), None);
}

#[test]
fn logic_gap_prompt_lists_public_functions() {
    let p = render_prompt("story", &vec!["a".to_string(), "b".to_string()]);
    assert_eq!(
        p,
        "## Example narrative\nstory\n\n## Public functions in the library\n- a\n- b\n\nRespond with the JSON object described in the system prompt."
    );
}

#[test]
fn logic_gap_divergence_follows_the_verdict() {
    assert!(logic_gap_divergence("examples/a.rs", None).is_none());
    assert!(logic_gap_divergence(
        "examples/a.rs",
        Some(LlmVerdict { match_spec: true, reason: "fine".into() })
    )
    .is_none());
    let d = logic_gap_divergence(
        "examples/a.rs",
        Some(LlmVerdict { match_spec: false, reason: "gone".into() }),
    )
    .unwrap();
    assert_eq!(d.location, Location::new("examples/a.rs", 1));
    assert_eq!(d.reality, "gone");
}

fn outdated_ctx(markdown: &str, rust: &str, fact: &str) -> ProjectContext {
    let md = "/tmp/proj/README.md";
    let rs = "/tmp/proj/lib.rs";
    let mut ctx = ProjectContext::new("/tmp/proj");
    ctx.markdown_files.push(md.to_string());
    ctx.rust_files.push(rs.to_string());
    ctx.sources.push(SourceText { path: md.to_string(), text: markdown.to_string() });
    ctx.sources.push(SourceText { path: rs.to_string(), text: rust.to_string() });
    ctx.code_facts.push(fn_fact(fact, rs, 1));
    ctx
}

#[test]
fn flags_when_model_says_drift() {
    let ctx = outdated_ctx(
        "## Usage\n\nCall `start()` to begin the flow.\n",
        "pub fn start() { /* old impl */ }\n",
        "start",
    );
    let client = Arc::new(FakeClient::new(false, "start() no longer takes the happy path"));
    let divs = OutdatedLogicAnalyzer::new(client.clone()).analyze(&ctx);

    assert!(client.was_called.load(Ordering::Acquire));
    assert_eq!(divs.len(), 1);
    assert_eq!(divs[0].rule, RuleId::OutdatedLogic);
    assert_eq!(divs[0].severity, Severity::Notice);
    assert!(divs[0].reality.contains("no longer"));
    assert_eq!(divs[0].location.line, 1);
}

#[test]
fn outdated_logic_silent_when_model_says_match() {
    let ctx = outdated_ctx("## Usage\n\nCall `go()` to run.\n", "pub fn go() {}\n", "go");
    let client = Arc::new(FakeClient::new(true, "matches"));
    assert!(OutdatedLogicAnalyzer::new(client).analyze(&ctx).is_empty());
}

#[test]
fn outdated_logic_silent_when_client_is_null() {
    let ctx = outdated_ctx("## Usage\n\nCall `go()` to run.\n", "pub fn go() {}\n", "go");
    assert!(OutdatedLogicAnalyzer::new(Arc::new(NullClient)).analyze(&ctx).is_empty());
}

#[test]
fn skips_sections_with_no_resolvable_symbols() {
    let md = "/tmp/proj/README.md";
    let mut ctx = ProjectContext::new("/tmp/proj");
    ctx.markdown_files.push(md.to_string());
    ctx.sources.push(SourceText {
        path: md.to_string(),
        text: "## Overview\n\nA short philosophical paragraph with no symbols.\n".to_string(),
    });
    let client = Arc::new(FakeClient::new(false, "would fire"));
    let divs = OutdatedLogicAnalyzer::new(client.clone()).analyze(&ctx);
    assert!(divs.is_empty());
}

#[test]
fn outdated_prompt_embeds_section_and_bodies() {
    let p = render_user_prompt("  ## Usage\nCall `go()`.  ", &vec![("go".to_string(), "pub fn go() {}".to_string())]);
    assert_eq!(
        p,
        "## Documentation section\n## Usage\nCall `go()`.\n\n## Current code\n### fn go\n```rust\npub fn go() {}\n```\n\nRespond with the JSON object described in the system prompt."
    );
}

#[test]
fn outdated_divergence_follows_the_verdict() {
    assert!(outdated_divergence("README.md", 4, None).is_none());
    let d = outdated_divergence(
        "README.md",
        4,
        Some(LlmVerdict { match_spec: false, reason: "changed".into() }),
    )
    .unwrap();
    assert_eq!(d.location, Location::new("README.md", 4));
    assert_eq!(d.stated, "section describes current behavior");
}
