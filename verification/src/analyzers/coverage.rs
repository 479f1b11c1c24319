//! `missing_coverage`: documented functions that no test names.
use vstd::prelude::*;
use crate::analyzers::analyzer::DriftAnalyzer;
use crate::context::{lemma_source_fits, source_for, ProjectContext, SourceText};
use crate::domain::{
    are_findings, finding, is_finding, lemma_are_findings_append, CodeFact, Divergence, FactKind,
    Finding, RuleId, Severity,
};
use crate::parsers::markdown::{claims_from, markdown_events, MarkdownParser};
use crate::paths::{components, path_components};
use crate::patterns::{capture, escape, is_match, regex_escaped, regex_group, regex_matches};
use crate::text::{chars_of, contains, contains_seq, occurs_at, push_str, str_eq, string_of, texts, trim, trim_seq};

verus! {

/// MissingCoverageAnalyzer — enforces `missing_coverage` (heuristic, Notice).
///
/// For every function-shaped inline code span in Markdown (`fn_name()` or
/// `Type::method()`) whose function *exists* in the code facts, look for at
/// least one whole-word occurrence of the name in a test-scope file: any
/// file under `tests/` or any `.rs` file containing a `#[test]` attribute.
pub struct MissingCoverageAnalyzer;

/// A call of a plain or `::`-qualified function; group 1 is the leaf name.
pub open spec fn callable_pattern() -> Seq<char> {
    "^(?:[A-Za-z_][A-Za-z0-9_]*::)*([A-Za-z_][A-Za-z0-9_]*)\\([^)]*\\)$"@
}

fn callable_pattern_text() -> (p: &'static str)
    ensures
        p@ == callable_pattern(),
{
    "^(?:[A-Za-z_][A-Za-z0-9_]*::)*([A-Za-z_][A-Za-z0-9_]*)\\([^)]*\\)$"
}

/// The function an inline code span calls, if it looks like a call.
pub open spec fn callable_leaf(span: Seq<char>) -> Option<Seq<char>> {
    regex_group(callable_pattern(), trim_seq(span), 1)
}

pub fn extract_callable_leaf(span: &str) -> (r: Option<String>)
    ensures
        match r {
            Some(s) => callable_leaf(span@) == Some(s@),
            None => callable_leaf(span@) is None,
        },
{
    let t = string_of(&trim(&chars_of(span)));
    capture(callable_pattern_text(), t.as_str(), 1)
}

/// A test-scope file: under a `tests` directory, or a read source holding
/// `#[test]` or `#[cfg(test)]`.
pub open spec fn test_file(path: Seq<char>, sources: Seq<SourceText>) -> bool {
    ||| path_components(path).contains("tests"@)
    ||| match source_for(sources, path) {
        Some(t) => contains_seq(t, "#[test]"@) || contains_seq(t, "#[cfg(test)]"@),
        None => false,
    }
}

pub fn is_test_file(path: &str, ctx: &ProjectContext) -> (b: bool)
    ensures
        b == test_file(path@, ctx.sources@),
{
    let comps = components(path);
    for k in 0..comps.len()
        invariant
            texts(comps@) == path_components(path@),
            forall|j: int| 0 <= j < k ==> comps@[j]@ != "tests"@,
    {
        if str_eq(comps[k].as_str(), "tests") {
            proof {
                assert(texts(comps@)[k as int] == "tests"@);
                assert(path_components(path@).contains("tests"@)) by {
                    assert(path_components(path@)[k as int] == "tests"@);
                }
            }
            return true;
        }
    }
    proof {
        assert(!path_components(path@).contains("tests"@)) by {
            if path_components(path@).contains("tests"@) {
                let j = choose|j: int| 0 <= j < path_components(path@).len() && path_components(path@)[j] == "tests"@;
                assert(comps@[j]@ == "tests"@);
            }
        }
    }
    match ctx.source(path) {
        Some(t) => {
            let cs = chars_of(t.as_str());
            contains(&cs, &chars_of("#[test]")) || contains(&cs, &chars_of("#[cfg(test)]"))
        },
        None => false,
    }
}

/// The texts of the test-scope files among `files` that could be read.
pub open spec fn test_sources(files: Seq<String>, sources: Seq<SourceText>) -> Seq<Seq<char>>
    decreases files.len(),
{
    if files.len() == 0 {
        Seq::empty()
    } else {
        test_sources(files.drop_last(), sources) + if test_file(files.last()@, sources) {
            match source_for(sources, files.last()@) {
                Some(t) => seq![t],
                None => Seq::empty(),
            }
        } else {
            Seq::empty()
        }
    }
}

pub fn load_test_sources(ctx: &ProjectContext) -> (r: Vec<String>)
    ensures
        texts(r@) == test_sources(ctx.rust_files@, ctx.sources@),
{
    let mut r: Vec<String> = Vec::new();
    for i in 0..ctx.rust_files.len()
        invariant
            texts(r@) == test_sources(ctx.rust_files@.take(i as int), ctx.sources@),
    {
        proof {
            assert(ctx.rust_files@.take(i + 1).drop_last() =~= ctx.rust_files@.take(i as int));
        }
        let p = ctx.rust_files[i].as_str();
        if is_test_file(p, ctx) {
            match ctx.source(p) {
                Some(t) => {
                    let ghost before = r@;
                    r.push(t.clone());
                    assert(texts(r@) =~= texts(before).push(t@));
                },
                None => {},
            }
        }
    }
    assert(ctx.rust_files@.take(ctx.rust_files.len() as int) =~= ctx.rust_files@);
    r
}

/// The whole-word pattern for `symbol`.
pub open spec fn word_pattern(symbol: Seq<char>) -> Seq<char> {
    "\\b"@ + regex_escaped(symbol) + "\\b"@
}

/// Some test source mentions `symbol` as a whole word.
pub open spec fn referenced(sources: Seq<Seq<char>>, symbol: Seq<char>) -> bool {
    exists|k: int| 0 <= k < sources.len() && regex_matches(word_pattern(symbol), #[trigger] sources[k])
}

pub fn tests_reference(sources: &Vec<String>, symbol: &str) -> (b: bool)
    ensures
        b == referenced(texts(sources@), symbol@),
{
    let mut pattern = String::new();
    push_str(&mut pattern, "\\b");
    let escaped = escape(symbol);
    push_str(&mut pattern, escaped.as_str());
    push_str(&mut pattern, "\\b");
    for k in 0..sources.len()
        invariant
            pattern@ == word_pattern(symbol@),
            forall|j: int| 0 <= j < k ==> !regex_matches(pattern@, #[trigger] texts(sources@)[j]),
    {
        if is_match(pattern.as_str(), sources[k].as_str()) {
            assert(regex_matches(pattern@, texts(sources@)[k as int]));
            return true;
        }
    }
    false
}

/// Some function fact is named `name`.
pub open spec fn has_function(facts: Seq<CodeFact>, name: Seq<char>) -> bool {
    exists|k: int| 0 <= k < facts.len() && (#[trigger] facts[k]).name@ == name && facts[k].kind == FactKind::Function
}

fn function_exists(facts: &Vec<CodeFact>, name: &str) -> (b: bool)
    ensures
        b == has_function(facts@, name@),
{
    for k in 0..facts.len()
        invariant
            forall|j: int| 0 <= j < k ==> !((#[trigger] facts@[j]).name@ == name@ && facts@[j].kind == FactKind::Function),
    {
        if str_eq(facts[k].name.as_str(), name) && facts[k].kind == FactKind::Function {
            return true;
        }
    }
    false
}

/// A claim of some Markdown file: file, line, span text.
pub type ClaimAt = (Seq<char>, int, Seq<char>);

/// The claims of the Markdown files, file by file, in order.
pub open spec fn file_claims(files: Seq<String>, sources: Seq<SourceText>) -> Seq<ClaimAt>
    decreases files.len(),
{
    if files.len() == 0 {
        Seq::empty()
    } else {
        file_claims(files.drop_last(), sources) + match source_for(sources, files.last()@) {
            None => Seq::empty(),
            Some(t) => claims_from(markdown_events(t), vstd::utf8::encode_utf8(t)).map_values(
                |c: (int, Seq<char>)| (files.last()@, c.0, c.1),
            ),
        }
    }
}

/// The uncovered capability a claim points at, if any.
pub open spec fn coverage_gap(c: ClaimAt, facts: Seq<CodeFact>, tests: Seq<Seq<char>>) -> Option<Seq<char>> {
    match callable_leaf(c.2) {
        None => None,
        Some(leaf) => if has_function(facts, leaf) && !referenced(tests, leaf) {
            Some(leaf)
        } else {
            None
        },
    }
}

/// The findings so far and the `(file, line, leaf)` keys already flagged.
pub open spec fn coverage_scan(claims: Seq<ClaimAt>, facts: Seq<CodeFact>, tests: Seq<Seq<char>>) -> (Seq<Finding>, Seq<(Seq<char>, int, Seq<char>)>)
    decreases claims.len(),
{
    if claims.len() == 0 {
        (Seq::empty(), Seq::empty())
    } else {
        let (out, seen) = coverage_scan(claims.drop_last(), facts, tests);
        let c = claims.last();
        match coverage_gap(c, facts, tests) {
            None => (out, seen),
            Some(leaf) => if seen.contains((c.0, c.1, leaf)) {
                (out, seen)
            } else {
                (
                    out.push(
                        Finding {
                            rule: RuleId::MissingCoverage,
                            severity: Severity::Notice,
                            file: c.0,
                            line: c.1 as u32,
                            stated: "`"@ + leaf + "` is a capability the project exposes"@,
                            reality: "no test references `"@ + leaf + "` by name"@,
                            risk: "Capability claimed in the docs has no guard-rail in tests."@,
                        },
                    ),
                    seen.push((c.0, c.1, leaf)),
                )
            },
        }
    }
}

/// What the analyzer reports: nothing when the project has no test source,
/// else each uncovered claim once per file, line and name.
pub open spec fn coverage_findings(ctx: ProjectContext) -> Seq<Finding> {
    let tests = test_sources(ctx.rust_files@, ctx.sources@);
    if tests.len() == 0 {
        Seq::empty()
    } else {
        coverage_scan(file_claims(ctx.markdown_files@, ctx.sources@), ctx.code_facts@, tests).0
    }
}

/// A project without tests gets no coverage findings at all.
pub proof fn lemma_coverage_silent_without_tests(ctx: ProjectContext)
    requires
        test_sources(ctx.rust_files@, ctx.sources@).len() == 0,
    ensures
        coverage_findings(ctx) == Seq::<Finding>::empty(),
{
}

fn key_seen(seen: &Vec<(String, u32, String)>, file: &str, line: u32, leaf: &str) -> (b: bool)
    ensures
        b == seen@.map_values(|k: (String, u32, String)| (k.0@, k.1 as int, k.2@)).contains((file@, line as int, leaf@)),
{
    let ghost ks = seen@.map_values(|k: (String, u32, String)| (k.0@, k.1 as int, k.2@));
    for j in 0..seen.len()
        invariant
            ks == seen@.map_values(|k: (String, u32, String)| (k.0@, k.1 as int, k.2@)),
            forall|m: int| 0 <= m < j ==> ks[m] != (file@, line as int, leaf@),
    {
        if str_eq(seen[j].0.as_str(), file) && seen[j].1 == line && str_eq(seen[j].2.as_str(), leaf) {
            assert(ks[j as int] == (file@, line as int, leaf@));
            return true;
        }
    }
    false
}

impl DriftAnalyzer for MissingCoverageAnalyzer {
    fn id(&self) -> (s: &'static str)
        ensures
            s@ == "missing_coverage"@,
    {
        "missing_coverage"
    }

    #[verifier::rlimit(40)]
    fn analyze(&self, ctx: &ProjectContext) -> (out: Vec<Divergence>)
        ensures
            are_findings(out@, coverage_findings(*ctx)),
    {
        let tests = load_test_sources(ctx);
        let mut out: Vec<Divergence> = Vec::new();
        if tests.len() == 0 {
            return out;
        }
        let ghost ts = texts(tests@);
        let ghost facts = ctx.code_facts@;
        let mut seen: Vec<(String, u32, String)> = Vec::new();
        let ghost mut done: Seq<ClaimAt> = Seq::empty();
        for i in 0..ctx.markdown_files.len()
            invariant
                ctx.wf(),
                ts == texts(tests@),
                ts == test_sources(ctx.rust_files@, ctx.sources@),
                facts == ctx.code_facts@,
                done == file_claims(ctx.markdown_files@.take(i as int), ctx.sources@),
                are_findings(out@, coverage_scan(done, facts, ts).0),
                seen@.map_values(|k: (String, u32, String)| (k.0@, k.1 as int, k.2@)) == coverage_scan(done, facts, ts).1,
        {
            proof {
                assert(ctx.markdown_files@.take(i + 1).drop_last() =~= ctx.markdown_files@.take(i as int));
            }
            let md = ctx.markdown_files[i].as_str();
            match ctx.source(md) {
                None => {
                    proof {
                        assert(done =~= file_claims(ctx.markdown_files@.take(i + 1), ctx.sources@));
                    }
                },
                Some(text) => {
                    proof {
                        lemma_source_fits(ctx.sources@, md@);
                    }
                    let claims = MarkdownParser::parse(md, text.as_str());
                    let ghost expected = claims_from(markdown_events(text@), vstd::utf8::encode_utf8(text@)).map_values(
                        |c: (int, Seq<char>)| (md@, c.0, c.1),
                    );
                    let ghost start = done;
                    for k in 0..claims.len()
                        invariant
                            crate::parsers::markdown::claims_match(claims@, md@, text@),
                            expected == claims_from(markdown_events(text@), vstd::utf8::encode_utf8(text@)).map_values(
                                |c: (int, Seq<char>)| (md@, c.0, c.1),
                            ),
                            ts == texts(tests@),
                            facts == ctx.code_facts@,
                            done == start + expected.take(k as int),
                            are_findings(out@, coverage_scan(done, facts, ts).0),
                            seen@.map_values(|k: (String, u32, String)| (k.0@, k.1 as int, k.2@)) == coverage_scan(done, facts, ts).1,
                    {
                        let ghost prev = done;
                        proof {
                            done = done.push(expected[k as int]);
                            assert(done =~= start + expected.take(k + 1));
                            assert(done.drop_last() =~= prev);
                        }
                        let line = claims[k].location.line;
                        match extract_callable_leaf(claims[k].text.as_str()) {
                            None => {},
                            Some(leaf) => {
                                if function_exists(&ctx.code_facts, leaf.as_str()) && !tests_reference(&tests, leaf.as_str()) {
                                    if !key_seen(&seen, md, line, leaf.as_str()) {
                                        let mut stated = String::new();
                                        push_str(&mut stated, "`");
                                        push_str(&mut stated, leaf.as_str());
                                        push_str(&mut stated, "` is a capability the project exposes");
                                        let mut reality = String::new();
                                        push_str(&mut reality, "no test references `");
                                        push_str(&mut reality, leaf.as_str());
                                        push_str(&mut reality, "` by name");
                                        let d = finding(RuleId::MissingCoverage, Severity::Notice, md, line, stated, reality, "Capability claimed in the docs has no guard-rail in tests.");
                                        let ghost before = out@;
                                        out.push(d);
                                        let ghost sb = seen@;
                                        seen.push((md.to_owned(), line, leaf.clone()));
                                        proof {
                                            let expected_out = coverage_scan(done, facts, ts).0;
                                            assert(expected_out == coverage_scan(prev, facts, ts).0.push(expected_out.last()));
                                            assert(out@ =~= before.push(d));
                                            assert forall|m: int| 0 <= m < out@.len() implies is_finding(#[trigger] out@[m], expected_out[m]) by {
                                                if m < before.len() {
                                                    assert(out@[m] == before[m]);
                                                }
                                            }
                                            assert(seen@.map_values(|k: (String, u32, String)| (k.0@, k.1 as int, k.2@)) =~= sb.map_values(|k: (String, u32, String)| (k.0@, k.1 as int, k.2@)).push((md@, line as int, leaf@)));
                                        }
                                    }
                                }
                            },
                        }
                    }
                    proof {
                        assert(expected.take(claims.len() as int) =~= expected);
                        assert(done =~= file_claims(ctx.markdown_files@.take(i + 1), ctx.sources@));
                    }
                },
            }
        }
        proof {
            assert(ctx.markdown_files@.take(ctx.markdown_files.len() as int) =~= ctx.markdown_files@);
        }
        out
    }
}

/// A read Rust file under a `tests` directory, or whose text holds
/// `#[test]` or `#[cfg(test)]` wherever it lives, is test scope: its text is
/// among the test sources.
pub proof fn lemma_inline_tests_are_test_scope(files: Seq<String>, sources: Seq<SourceText>, i: int, text: Seq<char>, at: int)
    requires
        0 <= i < files.len(),
        source_for(sources, files[i]@) == Some(text),
        occurs_at(text, "#[test]"@, at) || occurs_at(text, "#[cfg(test)]"@, at) || path_components(files[i]@).contains("tests"@),
    ensures
        test_sources(files, sources).contains(text),
    decreases files.len(),
{
    if i < files.len() - 1 {
        assert(files.drop_last()[i] == files[i]);
        lemma_inline_tests_are_test_scope(files.drop_last(), sources, i, text, at);
        let prev = test_sources(files.drop_last(), sources);
        let k = choose|k: int| 0 <= k < prev.len() && prev[k] == text;
        assert(test_sources(files, sources)[k] == text);
    } else {
        if occurs_at(text, "#[test]"@, at) || occurs_at(text, "#[cfg(test)]"@, at) {
            assert(contains_seq(text, "#[test]"@) || contains_seq(text, "#[cfg(test)]"@));
        }
        assert(test_file(files.last()@, sources));
        let prev = test_sources(files.drop_last(), sources);
        assert(test_sources(files, sources)[prev.len() as int] == text);
    }
}

/// A documented function that such a file names as a whole word is covered:
/// no span calling it makes a missing_coverage divergence.
pub proof fn lemma_inline_test_mention_covers(ctx: ProjectContext, i: int, text: Seq<char>, at: int, claim: ClaimAt, leaf: Seq<char>)
    requires
        0 <= i < ctx.rust_files@.len(),
        source_for(ctx.sources@, ctx.rust_files@[i]@) == Some(text),
        occurs_at(text, "#[test]"@, at) || occurs_at(text, "#[cfg(test)]"@, at),
        callable_leaf(claim.2) == Some(leaf),
        regex_matches(word_pattern(leaf), text),
    ensures
        coverage_gap(claim, ctx.code_facts@, test_sources(ctx.rust_files@, ctx.sources@)) is None,
{
    let tests = test_sources(ctx.rust_files@, ctx.sources@);
    lemma_inline_tests_are_test_scope(ctx.rust_files@, ctx.sources@, i, text, at);
    let k = choose|k: int| 0 <= k < tests.len() && tests[k] == text;
    assert(regex_matches(word_pattern(leaf), tests[k]));
    assert(referenced(tests, leaf));
}

} // verus!
