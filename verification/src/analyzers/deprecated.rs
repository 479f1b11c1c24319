//! `deprecated_usage`: examples still calling deprecated API.
use vstd::prelude::*;
use crate::analyzers::analyzer::DriftAnalyzer;
use crate::analyzers::constraint::{opt_seq, push_finding};
use crate::analyzers::examples::{
    absolute_under, in_examples, pick_span, primary_span, starts_in_examples, under, CargoMessage,
    CargoRunner,
};
use crate::context::ProjectContext;
use crate::domain::{are_findings, finding, is_finding, Divergence, Finding, RuleId, Severity};
use crate::paths::{is_absolute, join, path_join, strip_prefix};
use crate::text::{chars_of, contains, contains_seq, has_prefix, push_str, starts_with, str_eq};

verus! {

/// A diagnostic code for deprecated API: rustc's `deprecated`, or clippy's
/// `clippy::deprecated_*` and the like.
pub open spec fn deprecated_code(code: Seq<char>) -> bool {
    code == "deprecated"@ || has_prefix(code, "deprecated"@) || contains_seq(code, "::deprecated"@)
}

pub fn is_deprecated_code(code: &str) -> (b: bool)
    ensures
        b == deprecated_code(code@),
{
    let c = chars_of(code);
    str_eq(code, "deprecated") || starts_with(&c, &chars_of("deprecated")) || contains(&c, &chars_of("::deprecated"))
}

/// The divergence a clippy message makes: a deprecation warning whose
/// primary span lies in `examples/`, located relative to the root.
pub open spec fn deprecated_use_of(m: CargoMessage, root: Seq<char>) -> Option<Finding> {
    match m {
        CargoMessage::Other => None,
        CargoMessage::CompilerMessage(cm) => if cm.level@ != "warning"@ {
            None
        } else {
            match cm.code {
                None => None,
                Some(code) => if !deprecated_code(code@) {
                    None
                } else {
                    match primary_span(cm.spans@) {
                        None => None,
                        Some(span) => {
                            let rel = under(absolute_under(root, span.file_name@), root);
                            if !in_examples(rel) {
                                None
                            } else {
                                Some(
                                    Finding {
                                        rule: RuleId::DeprecatedUsage,
                                        severity: Severity::Warning,
                                        file: rel,
                                        line: span.line_start,
                                        stated: "`"@ + rel + "` demonstrates supported API"@,
                                        reality: "example uses deprecated API: "@ + cm.message@,
                                        risk: "Examples teach users a pattern the codebase is retiring."@,
                                    },
                                )
                            }
                        },
                    }
                },
            }
        },
    }
}

pub open spec fn deprecated_uses_of(ms: Seq<CargoMessage>, root: Seq<char>) -> Seq<Finding>
    decreases ms.len(),
{
    if ms.len() == 0 {
        Seq::empty()
    } else {
        deprecated_uses_of(ms.drop_last(), root) + opt_seq(deprecated_use_of(ms.last(), root))
    }
}

fn deprecated_use(m: &CargoMessage, root: &str) -> (r: Option<Divergence>)
    ensures
        match deprecated_use_of(*m, root@) {
            Some(x) => r matches Some(d) && is_finding(d, x),
            None => r is None,
        },
{
    let cm = match m {
        CargoMessage::Other => {
            return None;
        },
        CargoMessage::CompilerMessage(cm) => cm,
    };
    if !str_eq(cm.level.as_str(), "warning") {
        return None;
    }
    match &cm.code {
        None => {
            return None;
        },
        Some(code) => {
            if !is_deprecated_code(code.as_str()) {
                return None;
            }
        },
    }
    let span = match pick_span(&cm.spans) {
        None => {
            return None;
        },
        Some(s) => s,
    };
    let abs = if is_absolute(span.file_name.as_str()) {
        span.file_name.clone()
    } else {
        join(root, span.file_name.as_str())
    };
    let rel = match strip_prefix(abs.as_str(), root) {
        Some(r) => r,
        None => abs,
    };
    if !starts_in_examples(rel.as_str()) {
        return None;
    }
    let mut stated = String::new();
    push_str(&mut stated, "`");
    push_str(&mut stated, rel.as_str());
    push_str(&mut stated, "` demonstrates supported API");
    let mut reality = String::new();
    push_str(&mut reality, "example uses deprecated API: ");
    push_str(&mut reality, cm.message.as_str());
    Some(finding(RuleId::DeprecatedUsage, Severity::Warning, rel.as_str(), span.line_start, stated, reality, "Examples teach users a pattern the codebase is retiring."))
}

/// Every deprecation warning rooted in `examples/`, in order.
pub fn parse_clippy_messages(messages: &Vec<CargoMessage>, root: &str) -> (out: Vec<Divergence>)
    ensures
        are_findings(out@, deprecated_uses_of(messages@, root@)),
{
    let mut out: Vec<Divergence> = Vec::new();
    for i in 0..messages.len()
        invariant
            are_findings(out@, deprecated_uses_of(messages@.take(i as int), root@)),
    {
        assert(messages@.take(i + 1).drop_last() =~= messages@.take(i as int));
        let d = deprecated_use(&messages[i], root);
        push_finding(&mut out, d, Ghost(deprecated_uses_of(messages@.take(i as int), root@)), Ghost(deprecated_use_of(messages@[i as int], root@)));
    }
    assert(messages@.take(messages.len() as int) =~= messages@);
    out
}

/// DeprecatedUsageAnalyzer — enforces `deprecated_usage`.
///
/// Runs `cargo clippy --examples` through its runner and surfaces every
/// warning whose diagnostic code is a deprecation.
pub struct DeprecatedUsageAnalyzer<R: CargoRunner + ?Sized> {
    runner: Box<R>,
}

impl<R: CargoRunner + ?Sized> DeprecatedUsageAnalyzer<R> {
    pub fn with_runner(runner: Box<R>) -> (a: DeprecatedUsageAnalyzer<R>)
        ensures
            a.runner() == runner,
    {
        DeprecatedUsageAnalyzer { runner }
    }

    /// The cargo runner this analyzer uses.
    pub closed spec fn runner(&self) -> Box<R> {
        self.runner
    }
}

impl<R: CargoRunner + ?Sized> DriftAnalyzer for DeprecatedUsageAnalyzer<R> {
    fn id(&self) -> (s: &'static str)
        ensures
            s@ == "deprecated_usage"@,
    {
        "deprecated_usage"
    }

    /// Nothing when the root has no `examples` directory. Otherwise the
    /// runner is asked to run clippy in the root: on an answer, the
    /// divergences of its messages; when it cannot run, nothing.
    fn analyze(&self, ctx: &ProjectContext) -> (out: Vec<Divergence>)
        ensures
            !crate::text::texts(ctx.existing_dirs@).contains(path_join(ctx.root@, "examples"@)) ==> out@.len() == 0,
            crate::text::texts(ctx.existing_dirs@).contains(path_join(ctx.root@, "examples"@)) ==> {
                ||| exists|m: &str, v: Vec<CargoMessage>|
                    m@ == ctx.root@
                    && #[trigger] call_ensures(R::clippy_examples, (&*self.runner(), m), Ok::<Vec<CargoMessage>, String>(v))
                    && are_findings(out@, deprecated_uses_of(v@, ctx.root@))
                ||| out@.len() == 0 && exists|m: &str, e: String|
                    m@ == ctx.root@
                    && #[trigger] call_ensures(R::clippy_examples, (&*self.runner(), m), Err::<Vec<CargoMessage>, String>(e))
            },
            forall|k: int| 0 <= k < out@.len() ==> (#[trigger] out@[k]).rule == RuleId::DeprecatedUsage && out@[k].severity == Severity::Warning,
    {
        let examples_dir = join(ctx.root.as_str(), "examples");
        if !ctx.dir_exists(examples_dir.as_str()) {
            let out: Vec<Divergence> = Vec::new();
            proof {
                assert(are_findings(out@, deprecated_uses_of(Seq::empty(), ctx.root@)));
            }
            return out;
        }
        let root_dir = ctx.root.as_str();
        let answer = self.runner.clippy_examples(root_dir);
        let ghost asked = answer;
        assert(call_ensures(R::clippy_examples, (&*self.runner(), root_dir), asked));
        match answer {
            Ok(messages) => {
                let out = parse_clippy_messages(&messages, ctx.root.as_str());
                proof {
                    assert(asked == Ok::<Vec<CargoMessage>, String>(messages));
                    assert forall|k: int| 0 <= k < out@.len() implies (#[trigger] out@[k]).rule == RuleId::DeprecatedUsage && out@[k].severity == Severity::Warning by {
                        lemma_deprecated_kind(messages@, ctx.root@, k);
                    }
                }
                out
            },
            Err(_) => {
                let out: Vec<Divergence> = Vec::new();
                proof {
                    assert(are_findings(out@, deprecated_uses_of(Seq::empty(), ctx.root@)));
                }
                out
            },
        }
    }
}

proof fn lemma_deprecated_kind(ms: Seq<CargoMessage>, root: Seq<char>, k: int)
    requires
        0 <= k < deprecated_uses_of(ms, root).len(),
    ensures
        deprecated_uses_of(ms, root)[k].rule == RuleId::DeprecatedUsage,
        deprecated_uses_of(ms, root)[k].severity == Severity::Warning,
    decreases ms.len(),
{
    if ms.len() > 0 {
        let prev = deprecated_uses_of(ms.drop_last(), root);
        if k < prev.len() {
            lemma_deprecated_kind(ms.drop_last(), root, k);
        }
    }
}

} // verus!
