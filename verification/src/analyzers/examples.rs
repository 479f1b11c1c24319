//! `compile_failure`: examples that no longer compile.
use vstd::prelude::*;
use crate::analyzers::analyzer::DriftAnalyzer;
use crate::analyzers::constraint::{opt_seq, push_finding};
use crate::context::ProjectContext;
use crate::domain::{are_findings, finding, is_finding, Divergence, Finding, RuleId, Severity};
use crate::paths::{components, is_absolute, join, path_components, path_is_absolute, path_join, path_strip_prefix, strip_prefix};
use crate::text::{push_str, str_eq};

verus! {

/// A source span of a compiler diagnostic.
#[derive(Debug, Clone)]
pub struct DiagSpan {
    pub file_name: String,
    pub line_start: u32,
    pub is_primary: bool,
}

/// A compiler diagnostic from cargo's JSON message stream.
#[derive(Debug, Clone)]
pub struct CompilerMessage {
    pub message: String,
    pub level: String,
    /// The diagnostic code (`deprecated`, `clippy::...`), when it has one.
    pub code: Option<String>,
    pub spans: Vec<DiagSpan>,
}

/// One message of cargo's JSON stream; only compiler messages matter.
#[derive(Debug, Clone)]
pub enum CargoMessage {
    CompilerMessage(CompilerMessage),
    Other,
}

/// Abstraction over invoking cargo so tests can inject canned messages. Each
/// method answers the decoded JSON messages of one cargo run, or why it
/// could not run.
pub trait CargoRunner: Send + Sync {
    /// `cargo check --examples --message-format=json` in `manifest_dir`.
    fn check_examples(&self, manifest_dir: &str) -> Result<Vec<CargoMessage>, String>;

    /// `cargo clippy --examples --message-format=json` in `manifest_dir`.
    /// Runners that only care about `cargo check` answer nothing.
    fn clippy_examples(&self, manifest_dir: &str) -> (r: Result<Vec<CargoMessage>, String>)
        default_ensures
            r matches Ok(v) && v@.len() == 0,
    {
        Ok(Vec::new())
    }
}

/// The primary span, else the first span.
pub open spec fn primary_span(spans: Seq<DiagSpan>) -> Option<DiagSpan> {
    if exists|k: int| 0 <= k < spans.len() && (#[trigger] spans[k]).is_primary {
        Some(spans[choose|k: int| 0 <= k < spans.len() && (#[trigger] spans[k]).is_primary && forall|j: int| 0 <= j < k ==> !spans[j].is_primary])
    } else if spans.len() > 0 {
        Some(spans[0])
    } else {
        None
    }
}

pub fn pick_span(spans: &Vec<DiagSpan>) -> (r: Option<&DiagSpan>)
    ensures
        match primary_span(spans@) {
            Some(s) => r matches Some(x) && *x == s,
            None => r is None,
        },
{
    for k in 0..spans.len()
        invariant
            forall|j: int| 0 <= j < k ==> !spans@[j].is_primary,
    {
        if spans[k].is_primary {
            proof {
                let c = choose|c: int| 0 <= c < spans@.len() && (#[trigger] spans@[c]).is_primary && forall|j: int| 0 <= j < c ==> !spans@[j].is_primary;
                assert(0 <= k < spans@.len() && spans@[k as int].is_primary && forall|j: int| 0 <= j < k ==> !spans@[j].is_primary);
                if c < k {
                } else if c > k {
                }
            }
            return Some(&spans[k]);
        }
    }
    if spans.len() > 0 {
        Some(&spans[0])
    } else {
        None
    }
}

/// `path` made absolute against `root` when relative.
pub open spec fn absolute_under(root: Seq<char>, path: Seq<char>) -> Seq<char> {
    if path_is_absolute(path) {
        path
    } else {
        path_join(root, path)
    }
}

/// `path` relative to `root` when under it, else `path`.
pub open spec fn under(path: Seq<char>, root: Seq<char>) -> Seq<char> {
    match path_strip_prefix(path, root) {
        Some(r) => r,
        None => path,
    }
}

/// The path's first component is `examples`.
pub open spec fn in_examples(rel: Seq<char>) -> bool {
    path_components(rel).len() > 0 && path_components(rel)[0] == "examples"@
}

fn absolute_path(root: &str, path: &str) -> (r: String)
    ensures
        r@ == absolute_under(root@, path@),
{
    if is_absolute(path) {
        path.to_owned()
    } else {
        join(root, path)
    }
}

fn relative_path(path: &str, root: &str) -> (r: String)
    ensures
        r@ == under(path@, root@),
{
    match strip_prefix(path, root) {
        Some(r) => r,
        None => path.to_owned(),
    }
}

pub fn starts_in_examples(rel: &str) -> (b: bool)
    ensures
        b == in_examples(rel@),
{
    let comps = components(rel);
    if comps.len() == 0 {
        return false;
    }
    assert(comps@.map_values(|c: String| c@)[0] == comps@[0]@);
    str_eq(comps[0].as_str(), "examples")
}

/// The divergence a compiler message makes: an error whose primary span
/// lies in the package's `examples/`, located relative to the report root.
pub open spec fn compile_failure_of(m: CargoMessage, manifest: Seq<char>, report_root: Seq<char>) -> Option<Finding> {
    match m {
        CargoMessage::Other => None,
        CargoMessage::CompilerMessage(cm) => if cm.level@ != "error"@ {
            None
        } else {
            match primary_span(cm.spans@) {
                None => None,
                Some(span) => {
                    let abs = absolute_under(manifest, span.file_name@);
                    if !in_examples(under(abs, manifest)) {
                        None
                    } else {
                        let report = under(abs, report_root);
                        Some(
                            Finding {
                                rule: RuleId::CompileFailure,
                                severity: Severity::Critical,
                                file: report,
                                line: span.line_start,
                                stated: "`"@ + report + "` demonstrates the current API"@,
                                reality: "`cargo check --examples` fails: "@ + cm.message@,
                                risk: "Users copy from broken examples and ship broken code."@,
                            },
                        )
                    }
                },
            }
        },
    }
}

pub open spec fn compile_failures_of(ms: Seq<CargoMessage>, manifest: Seq<char>, report_root: Seq<char>) -> Seq<Finding>
    decreases ms.len(),
{
    if ms.len() == 0 {
        Seq::empty()
    } else {
        compile_failures_of(ms.drop_last(), manifest, report_root) + opt_seq(compile_failure_of(ms.last(), manifest, report_root))
    }
}

fn compile_failure(m: &CargoMessage, manifest: &str, report_root: &str) -> (r: Option<Divergence>)
    ensures
        match compile_failure_of(*m, manifest@, report_root@) {
            Some(x) => r matches Some(d) && is_finding(d, x),
            None => r is None,
        },
{
    let cm = match m {
        CargoMessage::Other => {
            return None;
        },
        CargoMessage::CompilerMessage(cm) => cm,
    };
    if !str_eq(cm.level.as_str(), "error") {
        return None;
    }
    let span = match pick_span(&cm.spans) {
        None => {
            return None;
        },
        Some(s) => s,
    };
    let abs = absolute_path(manifest, span.file_name.as_str());
    let package_rel = relative_path(abs.as_str(), manifest);
    if !starts_in_examples(package_rel.as_str()) {
        return None;
    }
    let report = relative_path(abs.as_str(), report_root);
    let mut stated = String::new();
    push_str(&mut stated, "`");
    push_str(&mut stated, report.as_str());
    push_str(&mut stated, "` demonstrates the current API");
    let mut reality = String::new();
    push_str(&mut reality, "`cargo check --examples` fails: ");
    push_str(&mut reality, cm.message.as_str());
    Some(finding(RuleId::CompileFailure, Severity::Critical, report.as_str(), span.line_start, stated, reality, "Users copy from broken examples and ship broken code."))
}

/// Every error-level compiler message rooted in the package's `examples/`
/// directory, located relative to the workspace root.
pub fn parse_cargo_messages(messages: &Vec<CargoMessage>, manifest_root: &str, report_root: &str) -> (out: Vec<Divergence>)
    ensures
        are_findings(out@, compile_failures_of(messages@, manifest_root@, report_root@)),
{
    let mut out: Vec<Divergence> = Vec::new();
    for i in 0..messages.len()
        invariant
            are_findings(out@, compile_failures_of(messages@.take(i as int), manifest_root@, report_root@)),
    {
        assert(messages@.take(i + 1).drop_last() =~= messages@.take(i as int));
        let d = compile_failure(&messages[i], manifest_root, report_root);
        push_finding(&mut out, d, Ghost(compile_failures_of(messages@.take(i as int), manifest_root@, report_root@)), Ghost(compile_failure_of(messages@[i as int], manifest_root@, report_root@)));
    }
    assert(messages@.take(messages.len() as int) =~= messages@);
    out
}

/// ExamplesAnalyzer — enforces `compile_failure`.
///
/// Runs `cargo check --examples` through its runner and surfaces every
/// error-level compiler message that points at a file under `examples/`.
pub struct ExamplesAnalyzer<R: CargoRunner + ?Sized> {
    /// Overrides the directory cargo runs in; the analysis root otherwise.
    manifest_override: Option<String>,
    runner: Box<R>,
}

impl<R: CargoRunner + ?Sized> ExamplesAnalyzer<R> {
    /// An analyzer with the given runner.
    pub fn with_runner(runner: Box<R>) -> (a: ExamplesAnalyzer<R>)
        ensures
            a.manifest_override() is None,
            a.runner() == runner,
    {
        ExamplesAnalyzer { manifest_override: None, runner }
    }

    /// The cargo runner this analyzer uses.
    pub closed spec fn runner(&self) -> Box<R> {
        self.runner
    }

    pub closed spec fn manifest_override(&self) -> Option<String> {
        self.manifest_override
    }
}

/// The directory cargo runs in for a context.
pub open spec fn examples_manifest(over: Option<String>, ctx: ProjectContext) -> Seq<char> {
    match over {
        Some(m) => m@,
        None => ctx.analysis_root@,
    }
}

impl<R: CargoRunner + ?Sized> DriftAnalyzer for ExamplesAnalyzer<R> {
    fn id(&self) -> (s: &'static str)
        ensures
            s@ == "examples"@,
    {
        "examples"
    }

    /// Nothing when the package has no `examples` directory. Otherwise the
    /// runner is asked to check the examples in the manifest directory: on
    /// an answer, the divergences of its messages; when it cannot run,
    /// nothing.
    fn analyze(&self, ctx: &ProjectContext) -> (out: Vec<Divergence>)
        ensures
            !crate::text::texts(ctx.existing_dirs@).contains(path_join(examples_manifest(self.manifest_override(), *ctx), "examples"@)) ==> out@.len() == 0,
            crate::text::texts(ctx.existing_dirs@).contains(path_join(examples_manifest(self.manifest_override(), *ctx), "examples"@)) ==> {
                ||| exists|m: &str, v: Vec<CargoMessage>|
                    m@ == examples_manifest(self.manifest_override(), *ctx)
                    && #[trigger] call_ensures(R::check_examples, (&*self.runner(), m), Ok::<Vec<CargoMessage>, String>(v))
                    && are_findings(out@, compile_failures_of(v@, examples_manifest(self.manifest_override(), *ctx), ctx.root@))
                ||| out@.len() == 0 && exists|m: &str, e: String|
                    m@ == examples_manifest(self.manifest_override(), *ctx)
                    && #[trigger] call_ensures(R::check_examples, (&*self.runner(), m), Err::<Vec<CargoMessage>, String>(e))
            },
            forall|k: int| 0 <= k < out@.len() ==> (#[trigger] out@[k]).rule == RuleId::CompileFailure && out@[k].severity == Severity::Critical,
    {
        let manifest = match &self.manifest_override {
            Some(m) => m.clone(),
            None => ctx.analysis_root.clone(),
        };
        let examples_dir = join(manifest.as_str(), "examples");
        if !ctx.dir_exists(examples_dir.as_str()) {
            let out: Vec<Divergence> = Vec::new();
            proof {
                assert(manifest@ == examples_manifest(self.manifest_override(), *ctx));
                assert(are_findings(out@, compile_failures_of(Seq::empty(), manifest@, ctx.root@)));
            }
            return out;
        }
        let manifest_dir = manifest.as_str();
        let answer = self.runner.check_examples(manifest_dir);
        let ghost asked = answer;
        assert(call_ensures(R::check_examples, (&*self.runner(), manifest_dir), asked));
        match answer {
            Ok(messages) => {
                let out = parse_cargo_messages(&messages, manifest.as_str(), ctx.root.as_str());
                proof {
                    assert(manifest@ == examples_manifest(self.manifest_override(), *ctx));
                    assert(asked == Ok::<Vec<CargoMessage>, String>(messages));
                    assert forall|k: int| 0 <= k < out@.len() implies (#[trigger] out@[k]).rule == RuleId::CompileFailure && out@[k].severity == Severity::Critical by {
                        lemma_compile_failures_kind(messages@, manifest@, ctx.root@, k);
                    }
                }
                out
            },
            Err(_) => {
                let out: Vec<Divergence> = Vec::new();
                proof {
                    assert(manifest@ == examples_manifest(self.manifest_override(), *ctx));
                    assert(are_findings(out@, compile_failures_of(Seq::empty(), manifest@, ctx.root@)));
                }
                out
            },
        }
    }
}

proof fn lemma_compile_failures_kind(ms: Seq<CargoMessage>, manifest: Seq<char>, root: Seq<char>, k: int)
    requires
        0 <= k < compile_failures_of(ms, manifest, root).len(),
    ensures
        compile_failures_of(ms, manifest, root)[k].rule == RuleId::CompileFailure,
        compile_failures_of(ms, manifest, root)[k].severity == Severity::Critical,
    decreases ms.len(),
{
    if ms.len() > 0 {
        let prev = compile_failures_of(ms.drop_last(), manifest, root);
        if k < prev.len() {
            lemma_compile_failures_kind(ms.drop_last(), manifest, root, k);
        }
    }
}

} // verus!
