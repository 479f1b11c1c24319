//! Reporters render a list of divergences as text. The human report and the
//! correction prompt are rendered here; the JSON and SARIF documents are
//! serialized by the application from the pieces this module decides
//! (severity levels, the de-duplicated rule list, start lines).

use vstd::prelude::*;
use crate::domain::{Divergence, RuleId, Severity, rule_name, severity_glyph};
use crate::text::{decimal, push_decimal, push_str};

verus! {

pub trait Reporter {
    fn render(&self, divergences: &[Divergence]) -> String;
}

// ---------------------------------------------------------------------------
// Human report
// ---------------------------------------------------------------------------

pub struct HumanReporter;

/// The optional `- Blame:` line of a block.
pub open spec fn human_blame_line(d: Divergence) -> Seq<char> {
    match d.attribution {
        Some(a) => "- Blame: "@ + a.commit@ + " "@ + a.author@ + " ("@ + a.date@ + "): "@ + a.summary@ + "\n"@,
        None => Seq::empty(),
    }
}

/// The block the human report prints for one divergence.
pub open spec fn human_block(d: Divergence) -> Seq<char> {
    severity_glyph(d.severity) + ": "@ + rule_name(d.rule) + "\n"@
        + "- File: "@ + d.location.file@ + " (Line "@ + decimal(d.location.line as nat) + ")\n"@
        + "- Stated: "@ + d.stated@ + "\n"@
        + "- Reality: "@ + d.reality@ + "\n"@
        + "- Risk: "@ + d.risk@ + "\n"@
        + human_blame_line(d)
        + "\n"@
}

pub open spec fn human_blocks(ds: Seq<Divergence>) -> Seq<char>
    decreases ds.len(),
{
    if ds.len() == 0 {
        Seq::empty()
    } else {
        human_blocks(ds.drop_last()) + human_block(ds.last())
    }
}

/// The whole human report.
pub open spec fn human_report(ds: Seq<Divergence>) -> Seq<char> {
    if ds.len() == 0 {
        "✅ SPEC DRIFT REPORT: no divergences found.\n"@
    } else {
        "📉 SPEC DRIFT REPORT: ["@ + decimal(ds.len()) + " Divergence"@
            + (if ds.len() == 1 { ""@ } else { "s"@ }) + " Found]\n"@ + "\n"@
            + human_blocks(ds)
    }
}

fn push_human_block(out: &mut String, d: &Divergence)
    ensures
        final(out)@ == old(out)@ + human_block(*d),
{
    let ghost start = out@;
    push_str(out, d.severity.glyph());
    push_str(out, ": ");
    push_str(out, d.rule.as_str());
    push_str(out, "\n");
    push_str(out, "- File: ");
    push_str(out, d.location.file.as_str());
    push_str(out, " (Line ");
    push_decimal(out, d.location.line as u64);
    push_str(out, ")\n");
    push_str(out, "- Stated: ");
    push_str(out, d.stated.as_str());
    push_str(out, "\n");
    push_str(out, "- Reality: ");
    push_str(out, d.reality.as_str());
    push_str(out, "\n");
    push_str(out, "- Risk: ");
    push_str(out, d.risk.as_str());
    push_str(out, "\n");
    let ghost before_blame = out@;
    match &d.attribution {
        Some(a) => {
            push_str(out, "- Blame: ");
            push_str(out, a.commit.as_str());
            push_str(out, " ");
            push_str(out, a.author.as_str());
            push_str(out, " (");
            push_str(out, a.date.as_str());
            push_str(out, "): ");
            push_str(out, a.summary.as_str());
            push_str(out, "\n");
        },
        None => {},
    }
    assert(out@ =~= before_blame + human_blame_line(*d));
    push_str(out, "\n");
    assert(out@ =~= start + human_block(*d));
}

impl HumanReporter {
    pub fn render_report(&self, divergences: &[Divergence]) -> (out: String)
        ensures
            out@ == human_report(divergences@),
    {
        let mut out = String::new();
        if divergences.len() == 0 {
            push_str(&mut out, "✅ SPEC DRIFT REPORT: no divergences found.\n");
            return out;
        }
        let n = divergences.len();
        push_str(&mut out, "📉 SPEC DRIFT REPORT: [");
        push_decimal(&mut out, n as u64);
        push_str(&mut out, " Divergence");
        if n == 1 {
            push_str(&mut out, "");
        } else {
            push_str(&mut out, "s");
        }
        push_str(&mut out, " Found]\n");
        push_str(&mut out, "\n");
        let ghost header = out@;
        for i in 0..n
            invariant
                n == divergences@.len(),
                out@ == header + human_blocks(divergences@.take(i as int)),
        {
            push_human_block(&mut out, &divergences[i]);
            proof {
                assert(divergences@.take(i + 1).drop_last() == divergences@.take(i as int));
                assert(divergences@.take(i + 1).last() == divergences@[i as int]);
            }
        }
        proof {
            assert(divergences@.take(n as int) == divergences@);
        }
        out
    }
}

impl Reporter for HumanReporter {
    fn render(&self, divergences: &[Divergence]) -> (out: String)
        ensures
            out@ == human_report(divergences@),
    {
        self.render_report(divergences)
    }
}

// ---------------------------------------------------------------------------
// Correction prompt
// ---------------------------------------------------------------------------

/// FixPromptReporter — a structured Markdown brief an LLM can consume to
/// propose a correction for every divergence: one task block per divergence
/// with file/line, the stated claim, the observed reality and the risk.
pub struct FixPromptReporter;

/// The task block for the `n`-th (1-based) divergence.
pub open spec fn fix_task(n: nat, d: Divergence) -> Seq<char> {
    "## Task "@ + decimal(n) + " — `"@ + rule_name(d.rule) + "` ("@ + severity_glyph(d.severity) + ")\n"@
        + "- **Location:** `"@ + d.location.file@ + ":"@ + decimal(d.location.line as nat) + "`\n"@
        + "- **Stated:** "@ + d.stated@ + "\n"@
        + "- **Reality:** "@ + d.reality@ + "\n"@
        + "- **Risk:** "@ + d.risk@ + "\n"@
        + "\n"@
}

pub open spec fn fix_tasks(ds: Seq<Divergence>) -> Seq<char>
    decreases ds.len(),
{
    if ds.len() == 0 {
        Seq::empty()
    } else {
        fix_tasks(ds.drop_last()) + fix_task(ds.len(), ds.last())
    }
}

/// The whole correction prompt.
pub open spec fn fix_prompt(ds: Seq<Divergence>) -> Seq<char> {
    if ds.len() == 0 {
        "# spec-drift correction prompt\n\nNo divergences detected. Nothing to correct.\n"@
    } else {
        "# spec-drift correction prompt\n"@ + "\n"@
            + "You are maintaining a Rust project. `spec-drift` found "@ + decimal(ds.len())
            + " divergence"@ + (if ds.len() == 1 { ""@ } else { "s"@ })
            + " between the project's specification surfaces (README, AGENTS.md, examples, CI) and its code. For each item below, choose one of:\n"@
            + "1. Update the spec to match the code.\n"@
            + "2. Update the code to match the spec.\n"@
            + "3. Justify the divergence and silence the rule (inline or in `spec-drift.toml`).\n"@
            + "\n"@
            + "Preserve formatting, do not invent facts, and keep edits minimal.\n"@
            + "\n"@
            + fix_tasks(ds)
    }
}

fn push_fix_task(out: &mut String, n: usize, d: &Divergence)
    ensures
        final(out)@ == old(out)@ + fix_task(n as nat, *d),
{
    let ghost start = out@;
    push_str(out, "## Task ");
    push_decimal(out, n as u64);
    push_str(out, " — `");
    push_str(out, d.rule.as_str());
    push_str(out, "` (");
    push_str(out, d.severity.glyph());
    push_str(out, ")\n");
    push_str(out, "- **Location:** `");
    push_str(out, d.location.file.as_str());
    push_str(out, ":");
    push_decimal(out, d.location.line as u64);
    push_str(out, "`\n");
    push_str(out, "- **Stated:** ");
    push_str(out, d.stated.as_str());
    push_str(out, "\n");
    push_str(out, "- **Reality:** ");
    push_str(out, d.reality.as_str());
    push_str(out, "\n");
    push_str(out, "- **Risk:** ");
    push_str(out, d.risk.as_str());
    push_str(out, "\n");
    push_str(out, "\n");
    assert(out@ =~= start + fix_task(n as nat, *d));
}

impl FixPromptReporter {
    pub fn render_prompt(&self, divergences: &[Divergence]) -> (out: String)
        ensures
            out@ == fix_prompt(divergences@),
    {
        let mut out = String::new();
        if divergences.len() == 0 {
            push_str(&mut out, "# spec-drift correction prompt\n\nNo divergences detected. Nothing to correct.\n");
            return out;
        }
        let n = divergences.len();
        let ghost start = out@;
        push_str(&mut out, "# spec-drift correction prompt\n");
        push_str(&mut out, "\n");
        push_str(&mut out, "You are maintaining a Rust project. `spec-drift` found ");
        push_decimal(&mut out, n as u64);
        push_str(&mut out, " divergence");
        if n == 1 {
            push_str(&mut out, "");
        } else {
            push_str(&mut out, "s");
        }
        push_str(&mut out, " between the project's specification surfaces (README, AGENTS.md, examples, CI) and its code. For each item below, choose one of:\n");
        push_str(&mut out, "1. Update the spec to match the code.\n");
        push_str(&mut out, "2. Update the code to match the spec.\n");
        push_str(&mut out, "3. Justify the divergence and silence the rule (inline or in `spec-drift.toml`).\n");
        push_str(&mut out, "\n");
        push_str(&mut out, "Preserve formatting, do not invent facts, and keep edits minimal.\n");
        push_str(&mut out, "\n");
        let ghost header = out@;
        for i in 0..n
            invariant
                n == divergences@.len(),
                out@ == header + fix_tasks(divergences@.take(i as int)),
        {
            push_fix_task(&mut out, i + 1, &divergences[i]);
            proof {
                assert(divergences@.take(i + 1).drop_last() == divergences@.take(i as int));
                assert(divergences@.take(i + 1).last() == divergences@[i as int]);
                assert(divergences@.take(i + 1).len() == i + 1);
            }
        }
        proof {
            assert(divergences@.take(n as int) == divergences@);
        }
        out
    }
}

impl Reporter for FixPromptReporter {
    fn render(&self, divergences: &[Divergence]) -> (out: String)
        ensures
            out@ == fix_prompt(divergences@),
    {
        self.render_prompt(divergences)
    }
}

// ---------------------------------------------------------------------------
// SARIF pieces
// ---------------------------------------------------------------------------

/// SARIF result level of a severity: critical→error, warning→warning,
/// notice→note.
pub open spec fn sarif_level(s: Severity) -> Seq<char> {
    match s {
        Severity::Critical => "error"@,
        Severity::Warning => "warning"@,
        Severity::Notice => "note"@,
    }
}

pub fn level_for(sev: Severity) -> (l: &'static str)
    ensures
        l@ == sarif_level(sev),
{
    match sev {
        Severity::Critical => "error",
        Severity::Warning => "warning",
        Severity::Notice => "note",
    }
}

/// SARIF regions start at line 1 or later.
pub fn sarif_start_line(line: u32) -> (l: u32)
    ensures
        l == if line >= 1 { line } else { 1 },
{
    if line >= 1 { line } else { 1 }
}

/// The rules of `ds` in order of first appearance, each once.
pub open spec fn first_rules(ds: Seq<Divergence>) -> Seq<RuleId>
    decreases ds.len(),
{
    if ds.len() == 0 {
        Seq::empty()
    } else {
        let prev = first_rules(ds.drop_last());
        if prev.contains(ds.last().rule) {
            prev
        } else {
            prev.push(ds.last().rule)
        }
    }
}

/// The `tool.driver.rules` of a SARIF run: every rule that occurs, once, in
/// order of first occurrence.
pub fn sarif_rule_ids(divergences: &[Divergence]) -> (r: Vec<RuleId>)
    ensures
        r@ == first_rules(divergences@),
{
    let mut r: Vec<RuleId> = Vec::new();
    for i in 0..divergences.len()
        invariant
            r@ == first_rules(divergences@.take(i as int)),
    {
        let rule = divergences[i].rule;
        let mut seen = false;
        for j in 0..r.len()
            invariant
                seen == exists|k: int| 0 <= k < j && r@[k] == rule,
        {
            if r[j] == rule {
                seen = true;
            }
        }
        proof {
            assert(divergences@.take(i + 1).drop_last() == divergences@.take(i as int));
            assert(divergences@.take(i + 1).last() == divergences@[i as int]);
            if r@.contains(rule) {
                let k = choose|k: int| 0 <= k < r@.len() && r@[k] == rule;
                assert(seen);
            }
        }
        if !seen {
            r.push(rule);
        }
    }
    proof {
        assert(divergences@.take(divergences@.len() as int) == divergences@);
    }
    r
}

/// Every rule of `first_rules` occurs in `ds`, no rule twice, and every rule
/// of `ds` is listed.
pub proof fn lemma_first_rules(ds: Seq<Divergence>)
    ensures
        forall|i: int, j: int| 0 <= i < j < first_rules(ds).len() ==> first_rules(ds)[i] != first_rules(ds)[j],
        forall|k: int| 0 <= k < ds.len() ==> first_rules(ds).contains(#[trigger] ds[k].rule),
    decreases ds.len(),
{
    if ds.len() > 0 {
        lemma_first_rules(ds.drop_last());
        let prev = first_rules(ds.drop_last());
        assert forall|k: int| 0 <= k < ds.len() implies first_rules(ds).contains(#[trigger] ds[k].rule) by {
            if k < ds.len() - 1 {
                assert(ds.drop_last()[k] == ds[k]);
                let w = choose|w: int| 0 <= w < prev.len() && prev[w] == ds[k].rule;
                assert(first_rules(ds)[w] == ds[k].rule);
            } else {
                if prev.contains(ds.last().rule) {
                } else {
                    assert(first_rules(ds)[prev.len() as int] == ds.last().rule);
                }
            }
        }
    }
}

} // verus!
