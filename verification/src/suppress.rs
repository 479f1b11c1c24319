//! Inline-ignore filtering.
//!
//! A divergence is suppressed when the source file contains, on the reported
//! line or one of the three lines above it, either:
//!
//! - `spec-drift: ignore-rule <rule-id>` (works in any comment syntax), or
//! - `#[allow(spec_drift::<rule-id>)]` (Rust-idiomatic form).
//!
//! "Silence must be specific and auditable" — markers without a rule id are
//! ignored. The caller reads the files; a file it could not read is simply
//! absent from the sources and suppresses nothing.
use vstd::prelude::*;
use crate::domain::{rule_name, Divergence, RuleId};
use crate::context::{source_for, text_of, SourceText};
use crate::text::{chars_of, contains, contains_seq, lines_of, occurs_at, split_lines, views};

verus! {

pub open spec fn generic_marker(rule: RuleId) -> Seq<char> {
    "spec-drift: ignore-rule "@ + rule_name(rule)
}

pub open spec fn rust_marker(rule: RuleId) -> Seq<char> {
    "spec_drift::"@ + rule_name(rule)
}

/// A line that names `rule` in an ignore marker.
pub open spec fn silences(line: Seq<char>, rule: RuleId) -> bool {
    contains_seq(line, generic_marker(rule)) || (contains_seq(line, "#[allow("@) && contains_seq(
        line,
        rust_marker(rule),
    ))
}

/// Silence is specific: a line silences a rule only when it names that rule.
pub proof fn lemma_silence_names_the_rule(line: Seq<char>, rule: RuleId)
    requires
        silences(line, rule),
    ensures
        contains_seq(line, rule_name(rule)),
{
    let m = if contains_seq(line, generic_marker(rule)) { generic_marker(rule) } else { rust_marker(rule) };
    let prefix_len: int = m.len() - rule_name(rule).len();
    assert(m.subrange(prefix_len, m.len() as int) =~= rule_name(rule));
    let i = choose|i: int| occurs_at(line, m, i);
    assert(line.subrange(i + prefix_len, i + m.len()) =~= rule_name(rule));
    assert(occurs_at(line, rule_name(rule), i + prefix_len));
}

/// The lines of the source whose path is `file`; none when the file is not
/// among the sources.
pub open spec fn lines_for(sources: Seq<SourceText>, file: Seq<char>) -> Seq<Seq<char>> {
    match source_for(sources, file) {
        Some(t) => lines_of(t),
        None => Seq::empty(),
    }
}

/// Line `i` (0-based) exists and silences `rule`.
pub open spec fn marked(lines: Seq<Seq<char>>, i: int, rule: RuleId) -> bool {
    0 <= i < lines.len() && silences(lines[i], rule)
}

/// The reported line (1-based) or one of the three above it silences the
/// divergence's rule.
pub open spec fn suppressed_by(lines: Seq<Seq<char>>, d: Divergence) -> bool {
    let t = d.location.line as int;
    t != 0 && (marked(lines, t - 1, d.rule) || marked(lines, t - 2, d.rule) || marked(
        lines,
        t - 3,
        d.rule,
    ) || marked(lines, t - 4, d.rule))
}

/// Whether `line` carries an ignore marker for `rule`.
pub fn line_silences_rule(line: &str, rule: RuleId) -> (b: bool)
    ensures
        b == silences(line@, rule),
{
    let l = chars_of(line);
    let mut generic = chars_of("spec-drift: ignore-rule ");
    let mut id = chars_of(rule.as_str());
    generic.append(&mut id);
    if contains(&l, &generic) {
        return true;
    }
    let mut rust_form = chars_of("spec_drift::");
    let mut id2 = chars_of(rule.as_str());
    rust_form.append(&mut id2);
    contains(&l, &chars_of("#[allow(")) && contains(&l, &rust_form)
}

fn line_marks(lines: &Vec<Vec<char>>, i: u32, rule: RuleId) -> (b: bool)
    ensures
        b == marked(views(lines@), i as int, rule),
{
    if (i as usize) < lines.len() {
        let s = crate::text::string_of(&lines[i as usize]);
        line_silences_rule(s.as_str(), rule)
    } else {
        false
    }
}

fn source_lines(sources: &Vec<SourceText>, file: &str) -> (r: Vec<Vec<char>>)
    ensures
        views(r@) == lines_for(sources@, file@),
{
    match text_of(sources, file) {
        Some(t) => {
            let cs = chars_of(t.as_str());
            split_lines(&cs)
        },
        None => {
            let r: Vec<Vec<char>> = Vec::new();
            assert(views(r@) =~= Seq::<Seq<char>>::empty());
            r
        },
    }
}

/// Whether `d` carries an inline ignore in the given sources.
pub fn is_suppressed(d: &Divergence, sources: &Vec<SourceText>) -> (b: bool)
    ensures
        b == suppressed_by(lines_for(sources@, d.location.file@), *d),
{
    let lines = source_lines(sources, d.location.file.as_str());
    let t = d.location.line;
    if t == 0 {
        return false;
    }
    (t >= 1 && line_marks(&lines, t - 1, d.rule)) || (t >= 2 && line_marks(&lines, t - 2, d.rule))
        || (t >= 3 && line_marks(&lines, t - 3, d.rule)) || (t >= 4 && line_marks(
        &lines,
        t - 4,
        d.rule,
    ))
}

/// Drop divergences that have an inline ignore marker naming their rule;
/// the rest keep their order.
pub fn apply_inline_ignores(divs: Vec<Divergence>, sources: &Vec<SourceText>) -> (out: Vec<
    Divergence,
>)
    ensures
        out@ == divs@.filter(
            |d: Divergence| !suppressed_by(lines_for(sources@, d.location.file@), d),
        ),
{
    let ghost pred = |d: Divergence| !suppressed_by(lines_for(sources@, d.location.file@), d);
    let mut out: Vec<Divergence> = Vec::new();
    for i in 0..divs.len()
        invariant
            pred == (|d: Divergence| !suppressed_by(lines_for(sources@, d.location.file@), d)),
            out@ == divs@.take(i as int).filter(pred),
    {
        let hidden = is_suppressed(&divs[i], sources);
        proof {
            assert(divs@.take(i + 1).drop_last() =~= divs@.take(i as int));
            reveal(Seq::filter);
        }
        if !hidden {
            out.push(divs[i].duplicate());
        }
    }
    assert(divs@.take(divs.len() as int) =~= divs@);
    out
}

} // verus!
