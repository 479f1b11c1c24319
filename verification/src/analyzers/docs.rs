//! `symbol_absence`: inline code in Markdown naming a symbol the code lacks.
use vstd::prelude::*;
use crate::analyzers::analyzer::DriftAnalyzer;
use crate::auto_fix::{leaf_of, leaf_of_text};
use crate::context::{lemma_source_fits, source_for, ProjectContext};
use crate::domain::{
    are_findings, finding, lemma_are_findings_append, CodeFact, Divergence, Finding, RuleId,
    Severity,
};
use crate::parsers::markdown::{claims_from, markdown_events, MarkdownParser};
use crate::patterns::{capture, regex_group};
use crate::text::{chars_of, push_str, str_eq, string_of, trim, trim_seq};

verus! {

/// DocsAnalyzer — enforces the `symbol_absence` rule.
///
/// Every Markdown inline-code span is checked against an identifier pattern.
/// If it looks like a Rust symbol path (`Type::method`, `fn_name`,
/// `module::Ty`), the leaf identifier is looked up among the code facts built
/// from the Rust sources. Missing leaves become divergences.
pub struct DocsAnalyzer;

/// A `::`-separated path of identifiers, optionally called with `()`; group
/// 1 is the path.
pub open spec fn ident_pattern() -> Seq<char> {
    "^([A-Za-z_][A-Za-z0-9_]*(?:::[A-Za-z_][A-Za-z0-9_]*)*)(?:\\(\\))?$"@
}

fn ident_pattern_text() -> (p: &'static str)
    ensures
        p@ == ident_pattern(),
{
    "^([A-Za-z_][A-Za-z0-9_]*(?:::[A-Za-z_][A-Za-z0-9_]*)*)(?:\\(\\))?$"
}

/// Identifiers Rust docs commonly reference that a project-local AST cannot
/// resolve (primitive types, `std` items, keywords).
pub open spec fn language_intrinsic(name: Seq<char>) -> bool {
    ||| name == "bool"@
        || name == "char"@
        || name == "str"@
        || name == "String"@
        || name == "i8"@
        || name == "i16"@
        || name == "i32"@
        || name == "i64"@
        || name == "i128"@
        || name == "isize"@
        || name == "u8"@
        || name == "u16"@
        || name == "u32"@
        || name == "u64"@
        || name == "u128"@
        || name == "usize"@
        || name == "f32"@
        || name == "f64"@
        || name == "Option"@
        || name == "Some"@
        || name == "None"@
        || name == "Result"@
        || name == "Ok"@
        || name == "Err"@
        || name == "Vec"@
        || name == "Box"@
        || name == "Arc"@
        || name == "Rc"@
        || name == "RefCell"@
        || name == "Cell"@
        || name == "Mutex"@
        || name == "RwLock"@
        || name == "HashMap"@
        || name == "HashSet"@
        || name == "BTreeMap"@
        || name == "BTreeSet"@
        || name == "fn"@
        || name == "impl"@
        || name == "trait"@
        || name == "struct"@
        || name == "enum"@
        || name == "pub"@
        || name == "mod"@
        || name == "use"@
        || name == "self"@
        || name == "Self"@
        || name == "super"@
        || name == "crate"@
}

pub fn is_language_intrinsic(name: &str) -> (b: bool)
    ensures
        b == language_intrinsic(name@),
{
    str_eq(name, "bool")
        || str_eq(name, "char")
        || str_eq(name, "str")
        || str_eq(name, "String")
        || str_eq(name, "i8")
        || str_eq(name, "i16")
        || str_eq(name, "i32")
        || str_eq(name, "i64")
        || str_eq(name, "i128")
        || str_eq(name, "isize")
        || str_eq(name, "u8")
        || str_eq(name, "u16")
        || str_eq(name, "u32")
        || str_eq(name, "u64")
        || str_eq(name, "u128")
        || str_eq(name, "usize")
        || str_eq(name, "f32")
        || str_eq(name, "f64")
        || str_eq(name, "Option")
        || str_eq(name, "Some")
        || str_eq(name, "None")
        || str_eq(name, "Result")
        || str_eq(name, "Ok")
        || str_eq(name, "Err")
        || str_eq(name, "Vec")
        || str_eq(name, "Box")
        || str_eq(name, "Arc")
        || str_eq(name, "Rc")
        || str_eq(name, "RefCell")
        || str_eq(name, "Cell")
        || str_eq(name, "Mutex")
        || str_eq(name, "RwLock")
        || str_eq(name, "HashMap")
        || str_eq(name, "HashSet")
        || str_eq(name, "BTreeMap")
        || str_eq(name, "BTreeSet")
        || str_eq(name, "fn")
        || str_eq(name, "impl")
        || str_eq(name, "trait")
        || str_eq(name, "struct")
        || str_eq(name, "enum")
        || str_eq(name, "pub")
        || str_eq(name, "mod")
        || str_eq(name, "use")
        || str_eq(name, "self")
        || str_eq(name, "Self")
        || str_eq(name, "super")
        || str_eq(name, "crate")
}

/// Some fact is named `name`.
pub open spec fn has_fact(facts: Seq<CodeFact>, name: Seq<char>) -> bool {
    exists|k: int| 0 <= k < facts.len() && (#[trigger] facts[k]).name@ == name
}

/// The symbol an inline code span names, if it looks like one.
pub open spec fn span_symbol(text: Seq<char>) -> Option<Seq<char>> {
    regex_group(ident_pattern(), trim_seq(text), 1)
}

/// The divergence for one inline code span, given the symbol it names.
pub open spec fn docs_finding(file: Seq<char>, line: u32, symbol: Option<Seq<char>>, facts: Seq<CodeFact>) -> Option<Finding> {
    match symbol {
        None => None,
        Some(sym) => {
            let leaf = leaf_of(sym);
            if language_intrinsic(leaf) || has_fact(facts, leaf) {
                None
            } else {
                Some(
                    Finding {
                        rule: RuleId::SymbolAbsence,
                        severity: Severity::Critical,
                        file,
                        line,
                        stated: "`"@ + sym + "` exists in the codebase"@,
                        reality: "no symbol named `"@ + leaf + "` found in the parsed Rust sources"@,
                        risk: "New developers and AI agents will reach for a non-existent API."@,
                    },
                )
            }
        },
    }
}

pub open spec fn opt_finding(o: Option<Finding>) -> Seq<Finding> {
    match o {
        Some(f) => seq![f],
        None => Seq::empty(),
    }
}

/// The divergences of one file's claims, in order.
pub open spec fn docs_claims(file: Seq<char>, claims: Seq<(int, Seq<char>)>, facts: Seq<CodeFact>) -> Seq<Finding>
    decreases claims.len(),
{
    if claims.len() == 0 {
        Seq::empty()
    } else {
        docs_claims(file, claims.drop_last(), facts) + opt_finding(
            docs_finding(file, claims.last().0 as u32, span_symbol(claims.last().1), facts),
        )
    }
}

/// The divergences of the Markdown files, in order; unread files add none.
pub open spec fn docs_files(files: Seq<String>, ctx: ProjectContext) -> Seq<Finding>
    decreases files.len(),
{
    if files.len() == 0 {
        Seq::empty()
    } else {
        docs_files(files.drop_last(), ctx) + match source_for(ctx.sources@, files.last()@) {
            None => Seq::empty(),
            Some(t) => docs_claims(
                files.last()@,
                claims_from(markdown_events(t), vstd::utf8::encode_utf8(t)),
                ctx.code_facts@,
            ),
        }
    }
}

/// The divergence for one inline code span whose symbol, if any, is given.
pub fn docs_divergence(file: &str, line: u32, symbol: Option<String>, ctx: &ProjectContext) -> (r: Option<Divergence>)
    ensures
        match docs_finding(
            file@,
            line,
            match symbol {
                Some(s) => Some(s@),
                None => None,
            },
            ctx.code_facts@,
        ) {
            Some(f) => r matches Some(d) && crate::domain::is_finding(d, f),
            None => r is None,
        },
{
    let sym = match symbol {
        Some(s) => s,
        None => {
            return None;
        },
    };
    let leaf = leaf_of_text(sym.as_str());
    if is_language_intrinsic(leaf.as_str()) || ctx.has_fact_named(leaf.as_str()) {
        return None;
    }
    let mut stated = String::new();
    push_str(&mut stated, "`");
    push_str(&mut stated, sym.as_str());
    push_str(&mut stated, "` exists in the codebase");
    let mut reality = String::new();
    push_str(&mut reality, "no symbol named `");
    push_str(&mut reality, leaf.as_str());
    push_str(&mut reality, "` found in the parsed Rust sources");
    Some(
        finding(
            RuleId::SymbolAbsence,
            Severity::Critical,
            file,
            line,
            stated,
            reality,
            "New developers and AI agents will reach for a non-existent API.",
        ),
    )
}

impl DriftAnalyzer for DocsAnalyzer {
    fn id(&self) -> (s: &'static str)
        ensures
            s@ == "docs"@,
    {
        "docs"
    }

    fn analyze(&self, ctx: &ProjectContext) -> (out: Vec<Divergence>)
        ensures
            are_findings(out@, docs_files(ctx.markdown_files@, *ctx)),
    {
        let mut out: Vec<Divergence> = Vec::new();
        for i in 0..ctx.markdown_files.len()
            invariant
                ctx.wf(),
                are_findings(out@, docs_files(ctx.markdown_files@.take(i as int), *ctx)),
        {
            proof {
                assert(ctx.markdown_files@.take(i + 1).drop_last() =~= ctx.markdown_files@.take(i as int));
            }
            let md = ctx.markdown_files[i].as_str();
            match ctx.source(md) {
                None => {},
                Some(text) => {
                    proof {
                        lemma_source_fits(ctx.sources@, md@);
                    }
                    let claims = MarkdownParser::parse(md, text.as_str());
                    let ghost expected = claims_from(markdown_events(text@), vstd::utf8::encode_utf8(text@));
                    let mut found: Vec<Divergence> = Vec::new();
                    for k in 0..claims.len()
                        invariant
                            crate::parsers::markdown::claims_match(claims@, md@, text@),
                            expected == claims_from(markdown_events(text@), vstd::utf8::encode_utf8(text@)),
                            are_findings(found@, docs_claims(md@, expected.take(k as int), ctx.code_facts@)),
                    {
                        proof {
                            assert(expected.take(k + 1).drop_last() =~= expected.take(k as int));
                        }
                        let t = trim(&chars_of(claims[k].text.as_str()));
                        let ts = string_of(&t);
                        let symbol = capture(ident_pattern_text(), ts.as_str(), 1);
                        let d = docs_divergence(md, claims[k].location.line, symbol, ctx);
                        let ghost before = found@;
                        match d {
                            Some(d) => {
                                found.push(d);
                                proof {
                                    lemma_are_findings_append(before, docs_claims(md@, expected.take(k as int), ctx.code_facts@), seq![found@.last()], opt_finding(docs_finding(md@, expected[k as int].0 as u32, span_symbol(expected[k as int].1), ctx.code_facts@)));
                                    assert(before + seq![found@.last()] =~= found@);
                                }
                            },
                            None => {},
                        }
                    }
                    proof {
                        assert(expected.take(claims.len() as int) =~= expected);
                    }
                    let ghost before = out@;
                    let ghost added = found@;
                    out.append(&mut found);
                    proof {
                        lemma_are_findings_append(before, docs_files(ctx.markdown_files@.take(i as int), *ctx), added, docs_claims(md@, expected, ctx.code_facts@));
                        assert(out@ =~= before + added);
                    }
                },
            }
        }
        proof {
            assert(ctx.markdown_files@.take(ctx.markdown_files.len() as int) =~= ctx.markdown_files@);
        }
        out
    }
}

/// The names a reader of Rust documentation takes from the language and
/// `std` rather than from the project: the primitive types, `String`, the
/// prelude and common collection, pointer and lock types of `std`, and the
/// keywords that stand in paths and signatures.
pub open spec fn std_or_keyword(n: Seq<char>) -> bool {
    ||| n == "bool"@
    ||| n == "char"@
    ||| n == "str"@
    ||| n == "String"@
    ||| n == "i8"@
    ||| n == "i16"@
    ||| n == "i32"@
    ||| n == "i64"@
    ||| n == "i128"@
    ||| n == "isize"@
    ||| n == "u8"@
    ||| n == "u16"@
    ||| n == "u32"@
    ||| n == "u64"@
    ||| n == "u128"@
    ||| n == "usize"@
    ||| n == "f32"@
    ||| n == "f64"@
    ||| n == "Option"@
    ||| n == "Some"@
    ||| n == "None"@
    ||| n == "Result"@
    ||| n == "Ok"@
    ||| n == "Err"@
    ||| n == "Vec"@
    ||| n == "Box"@
    ||| n == "Arc"@
    ||| n == "Rc"@
    ||| n == "RefCell"@
    ||| n == "Cell"@
    ||| n == "Mutex"@
    ||| n == "RwLock"@
    ||| n == "HashMap"@
    ||| n == "HashSet"@
    ||| n == "BTreeMap"@
    ||| n == "BTreeSet"@
    ||| n == "fn"@
    ||| n == "impl"@
    ||| n == "trait"@
    ||| n == "struct"@
    ||| n == "enum"@
    ||| n == "pub"@
    ||| n == "mod"@
    ||| n == "use"@
    ||| n == "self"@
    ||| n == "Self"@
    ||| n == "super"@
    ||| n == "crate"@
}

/// A span whose symbol ends in one of those names never makes a
/// symbol_absence divergence, whatever the code facts.
pub proof fn lemma_std_names_never_absent(file: Seq<char>, line: u32, symbol: Seq<char>, facts: Seq<CodeFact>)
    requires
        std_or_keyword(leaf_of(symbol)),
    ensures
        docs_finding(file, line, Some(symbol), facts) is None,
{
}

} // verus!
