//! `outdated_logic`: documentation sections that no longer describe the code.
use vstd::prelude::*;
use std::sync::Arc;
use crate::analyzers::analyzer::DriftAnalyzer;
use crate::analyzers::constraint::{opt_seq, push_finding};
use crate::auto_fix::{fetch_fn_body, fn_body, mentioned_identifiers, mentions_of, same_texts, strictly_sorted, windows_fit};
use crate::context::{lemma_source_fits, source_for, ProjectContext, SourceText};
use crate::domain::{are_findings, finding, is_finding, CodeFact, Divergence, Finding, RuleId, Severity};
use crate::llm::{model_asked, LlmClient, LlmVerdict};
use crate::parsers::markdown::{sections_of, split_sections, Section};
use crate::text::{chars_of, push_chars, push_str, split_seq, texts, trim, trim_seq};

verus! {

/// OutdatedLogicAnalyzer — enforces `outdated_logic` (experimental, Notice).
///
/// Each Markdown file is split into H2/H3 sections. For every section whose
/// backticked spans name at least one function that exists in the code, the
/// section text and those function bodies go to the model, which decides
/// whether the description still holds. A client that does not answer means no
/// divergence: the analyzer never flags on incomplete evidence.
pub struct OutdatedLogicAnalyzer<C: LlmClient + ?Sized> {
    client: Arc<C>,
}

impl<C: LlmClient + ?Sized> OutdatedLogicAnalyzer<C> {
    pub fn new(client: Arc<C>) -> (a: OutdatedLogicAnalyzer<C>)
        ensures
            a.client() == client,
    {
        OutdatedLogicAnalyzer { client }
    }

    /// The model this analyzer asks.
    pub closed spec fn client(&self) -> Arc<C> {
        self.client
    }
}

pub open spec fn outdated_system_prompt() -> Seq<char> {
    "You are auditing technical documentation for drift from source code. You receive (1) a Markdown section describing intended behavior, and (2) one or more Rust function bodies that implement the behavior. Decide whether the section is still accurate. Reply ONLY with a JSON object of the shape `{\"match_spec\": <bool>, \"reason\": \"<short explanation>\"}`. No prose before or after."@
}

pub fn outdated_system_prompt_text() -> (p: &'static str)
    ensures
        p@ == outdated_system_prompt(),
{
    "You are auditing technical documentation for drift from source code. You receive (1) a Markdown section describing intended behavior, and (2) one or more Rust function bodies that implement the behavior. Decide whether the section is still accurate. Reply ONLY with a JSON object of the shape `{\"match_spec\": <bool>, \"reason\": \"<short explanation>\"}`. No prose before or after."
}

/// The `### fn` blocks of named bodies.
pub open spec fn body_blocks(bodies: Seq<(Seq<char>, Seq<char>)>) -> Seq<char>
    decreases bodies.len(),
{
    if bodies.len() == 0 {
        Seq::empty()
    } else {
        body_blocks(bodies.drop_last()) + "### fn "@ + bodies.last().0 + "\n```rust\n"@ + bodies.last().1
            + "\n```\n"@
    }
}

pub open spec fn outdated_prompt(section: Seq<char>, bodies: Seq<(Seq<char>, Seq<char>)>) -> Seq<char> {
    "## Documentation section\n"@ + trim_seq(section) + "\n\n## Current code\n"@ + body_blocks(bodies)
        + "\nRespond with the JSON object described in the system prompt."@
}

pub open spec fn pair_texts(v: Seq<(String, String)>) -> Seq<(Seq<char>, Seq<char>)> {
    v.map_values(|p: (String, String)| (p.0@, p.1@))
}

/// The user prompt: the trimmed section, then each function body.
pub fn render_user_prompt(section: &str, bodies: &Vec<(String, String)>) -> (p: String)
    ensures
        p@ == outdated_prompt(section@, pair_texts(bodies@)),
{
    let mut prompt = String::new();
    push_str(&mut prompt, "## Documentation section\n");
    push_chars(&mut prompt, trim(&chars_of(section)).as_slice());
    push_str(&mut prompt, "\n\n## Current code\n");
    let ghost start = prompt@;
    let ghost bs = pair_texts(bodies@);
    for i in 0..bodies.len()
        invariant
            bs == pair_texts(bodies@),
            prompt@ == start + body_blocks(bs.take(i as int)),
    {
        assert(bs.take(i + 1).drop_last() =~= bs.take(i as int));
        push_str(&mut prompt, "### fn ");
        push_str(&mut prompt, bodies[i].0.as_str());
        push_str(&mut prompt, "\n```rust\n");
        push_str(&mut prompt, bodies[i].1.as_str());
        push_str(&mut prompt, "\n```\n");
    }
    assert(bs.take(bodies.len() as int) =~= bs);
    push_str(&mut prompt, "\nRespond with the JSON object described in the system prompt.");
    prompt
}

/// The names with a body, each with it, in order.
pub open spec fn named_bodies(names: Seq<Seq<char>>, facts: Seq<CodeFact>, sources: Seq<SourceText>) -> Seq<(Seq<char>, Seq<char>)>
    decreases names.len(),
{
    if names.len() == 0 {
        Seq::empty()
    } else {
        named_bodies(names.drop_last(), facts, sources) + match fn_body(facts, sources, names.last()) {
            Some(b) => seq![(names.last(), b)],
            None => Seq::empty(),
        }
    }
}

pub fn fetch_bodies(names: &Vec<String>, facts: &Vec<CodeFact>, sources: &Vec<SourceText>) -> (r: Vec<(String, String)>)
    requires
        windows_fit(facts@, sources@),
    ensures
        pair_texts(r@) == named_bodies(texts(names@), facts@, sources@),
{
    let ghost ns = texts(names@);
    let mut r: Vec<(String, String)> = Vec::new();
    for i in 0..names.len()
        invariant
            windows_fit(facts@, sources@),
            ns == texts(names@),
            pair_texts(r@) == named_bodies(ns.take(i as int), facts@, sources@),
    {
        assert(ns.take(i + 1).drop_last() =~= ns.take(i as int));
        match fetch_fn_body(facts, sources, names[i].as_str()) {
            Some(b) => {
                let ghost before = r@;
                r.push((names[i].clone(), b));
                assert(pair_texts(r@) =~= pair_texts(before).push((ns[i as int], r@.last().1@)));
            },
            None => {},
        }
    }
    assert(ns.take(names.len() as int) =~= ns);
    r
}

/// The divergence a verdict on a section makes: one when the model answered
/// that the section no longer matches.
pub open spec fn outdated_of(file: Seq<char>, line: u32, verdict: Option<LlmVerdict>) -> Option<Finding> {
    match verdict {
        None => None,
        Some(v) => if v.match_spec {
            None
        } else {
            Some(
                Finding {
                    rule: RuleId::OutdatedLogic,
                    severity: Severity::Notice,
                    file,
                    line,
                    stated: "section describes current behavior"@,
                    reality: v.reason@,
                    risk: "Docs teach behavior the code no longer implements."@,
                },
            )
        },
    }
}

pub fn outdated_divergence(file: &str, line: u32, verdict: Option<LlmVerdict>) -> (r: Option<Divergence>)
    ensures
        match outdated_of(file@, line, verdict) {
            Some(x) => r matches Some(d) && is_finding(d, x),
            None => r is None,
        },
{
    match verdict {
        None => None,
        Some(v) => if v.match_spec {
            None
        } else {
            Some(finding(RuleId::OutdatedLogic, Severity::Notice, file, line, "section describes current behavior".to_owned(), v.reason, "Docs teach behavior the code no longer implements."))
        },
    }
}

/// A backticked span of the section names a function whose body the
/// sources show.
pub open spec fn section_has_code(text: Seq<char>, facts: Seq<CodeFact>, sources: Seq<SourceText>) -> bool {
    exists|n: Seq<char>| mentions_of(split_seq(text, '`')).contains(n) && #[trigger] fn_body(facts, sources, n) is Some
}

proof fn lemma_named_bodies_nonempty(names: Seq<Seq<char>>, facts: Seq<CodeFact>, sources: Seq<SourceText>)
    ensures
        named_bodies(names, facts, sources).len() > 0 <==> exists|k: int|
            0 <= k < names.len() && (#[trigger] fn_body(facts, sources, names[k])) is Some,
    decreases names.len(),
{
    if names.len() > 0 {
        lemma_named_bodies_nonempty(names.drop_last(), facts, sources);
        if exists|k: int| 0 <= k < names.len() && (#[trigger] fn_body(facts, sources, names[k])) is Some {
            let k = choose|k: int| 0 <= k < names.len() && (#[trigger] fn_body(facts, sources, names[k])) is Some;
            if k < names.len() - 1 {
                assert(names.drop_last()[k] == names[k]);
            }
        }
        if exists|k: int| 0 <= k < names.len() - 1 && (#[trigger] fn_body(facts, sources, names.drop_last()[k])) is Some {
            let k = choose|k: int| 0 <= k < names.len() - 1 && (#[trigger] fn_body(facts, sources, names.drop_last()[k])) is Some;
            assert(names[k] == names.drop_last()[k]);
        }
    }
}

/// The divergences of the sections `secs` of Markdown file `md` when the
/// model answered `verdicts[i]` about section `i`.
pub open spec fn section_findings(
    md: Seq<char>,
    secs: Seq<(Seq<char>, int)>,
    facts: Seq<CodeFact>,
    sources: Seq<SourceText>,
    verdicts: Seq<Option<LlmVerdict>>,
) -> Seq<Finding>
    decreases secs.len(),
{
    if secs.len() == 0 || verdicts.len() == 0 {
        Seq::empty()
    } else {
        section_findings(md, secs.drop_last(), facts, sources, verdicts.drop_last()) + if section_has_code(
            secs.last().0,
            facts,
            sources,
        ) {
            opt_seq(outdated_of(md, secs.last().1 as u32, verdicts.last()))
        } else {
            Seq::empty()
        }
    }
}

/// The sections of a Markdown file that was read.
pub open spec fn file_sections(ctx: ProjectContext, md: Seq<char>) -> Seq<(Seq<char>, int)> {
    match source_for(ctx.sources@, md) {
        Some(t) => sections_of(t),
        None => Seq::empty(),
    }
}

/// The divergences of the Markdown files `files` when the model answered
/// `verdicts[i][j]` about section `j` of file `i`.
pub open spec fn outdated_files(files: Seq<String>, ctx: ProjectContext, verdicts: Seq<Seq<Option<LlmVerdict>>>) -> Seq<Finding>
    decreases files.len(),
{
    if files.len() == 0 || verdicts.len() == 0 {
        Seq::empty()
    } else {
        outdated_files(files.drop_last(), ctx, verdicts.drop_last()) + section_findings(
            files.last()@,
            file_sections(ctx, files.last()@),
            ctx.code_facts@,
            ctx.sources@,
            verdicts.last(),
        )
    }
}

/// The model was asked about a section as the analyzer asks: when the
/// section names a function with a body, `v` is a reply to the system prompt
/// and the user prompt of the section and the bodies of the functions it
/// names, in name order.
pub open spec fn section_asked<C: LlmClient + ?Sized>(
    client: &C,
    text: Seq<char>,
    facts: Seq<CodeFact>,
    sources: Seq<SourceText>,
    v: Option<LlmVerdict>,
) -> bool {
    section_has_code(text, facts, sources) ==> exists|names: Seq<Seq<char>>|
        #![trigger named_bodies(names, facts, sources)]
        strictly_sorted(names) && same_texts(names, mentions_of(split_seq(text, '`')))
            && model_asked(client, outdated_system_prompt(), outdated_prompt(text, named_bodies(names, facts, sources)), v)
}

impl<C: LlmClient + ?Sized> DriftAnalyzer for OutdatedLogicAnalyzer<C> {
    fn id(&self) -> (s: &'static str)
        ensures
            s@ == "outdated_logic"@,
    {
        "outdated_logic"
    }

    /// The model is asked about each section that names a function with a
    /// body; the divergences are those `outdated_of` makes of its replies,
    /// file by file and section by section.
    fn analyze(&self, ctx: &ProjectContext) -> (out: Vec<Divergence>)
        ensures
            exists|verdicts: Seq<Seq<Option<LlmVerdict>>>|
                {
                    &&& verdicts.len() == ctx.markdown_files@.len()
                    &&& forall|i: int| 0 <= i < verdicts.len() ==> (#[trigger] verdicts[i]).len() == file_sections(*ctx, ctx.markdown_files@[i]@).len()
                    &&& are_findings(out@, outdated_files(ctx.markdown_files@, *ctx, verdicts))
                    &&& forall|i: int, j: int| 0 <= i < verdicts.len() && 0 <= j < verdicts[i].len() ==> section_asked(
                        &*self.client(),
                        file_sections(*ctx, ctx.markdown_files@[i]@)[j].0,
                        ctx.code_facts@,
                        ctx.sources@,
                        #[trigger] verdicts[i][j],
                    )
                },
    {
        let mut out: Vec<Divergence> = Vec::new();
        let ghost mut vss: Seq<Seq<Option<LlmVerdict>>> = Seq::empty();
        for i in 0..ctx.markdown_files.len()
            invariant
                ctx.wf(),
                vss.len() == i,
                forall|j: int| 0 <= j < i ==> (#[trigger] vss[j]).len() == file_sections(*ctx, ctx.markdown_files@[j]@).len(),
                are_findings(out@, outdated_files(ctx.markdown_files@.take(i as int), *ctx, vss)),
                forall|a: int, b: int| 0 <= a < i && 0 <= b < vss[a].len() ==> section_asked(
                    &*self.client(),
                    file_sections(*ctx, ctx.markdown_files@[a]@)[b].0,
                    ctx.code_facts@,
                    ctx.sources@,
                    #[trigger] vss[a][b],
                ),
        {
            proof {
                assert(ctx.markdown_files@.take(i + 1).drop_last() =~= ctx.markdown_files@.take(i as int));
                assert(ctx.markdown_files@.take(i + 1).last() == ctx.markdown_files@[i as int]);
            }
            let ghost done = outdated_files(ctx.markdown_files@.take(i as int), *ctx, vss);
            let md = ctx.markdown_files[i].as_str();
            let ghost mut vs: Seq<Option<LlmVerdict>> = Seq::empty();
            match ctx.source(md) {
                None => {
                    proof {
                        assert(file_sections(*ctx, md@) =~= Seq::<(Seq<char>, int)>::empty());
                        assert(done + Seq::<Finding>::empty() =~= done);
                    }
                },
                Some(text) => {
                    proof {
                        lemma_source_fits(ctx.sources@, md@);
                    }
                    let sections = split_sections(text.as_str());
                    let ghost secs = file_sections(*ctx, md@);
                    assert(secs == sections@.map_values(|x: Section| (x.text@, x.line as int)));
                    for s in 0..sections.len()
                        invariant
                            ctx.wf(),
                            secs == sections@.map_values(|x: Section| (x.text@, x.line as int)),
                            vs.len() == s,
                            are_findings(out@, done + section_findings(md@, secs.take(s as int), ctx.code_facts@, ctx.sources@, vs)),
                            forall|b: int| 0 <= b < s ==> section_asked(&*self.client(), secs[b].0, ctx.code_facts@, ctx.sources@, #[trigger] vs[b]),
                    {
                        proof {
                            assert(secs.take(s + 1).drop_last() =~= secs.take(s as int));
                            assert(secs.take(s + 1).last() == secs[s as int]);
                        }
                        let ghost prev = done + section_findings(md@, secs.take(s as int), ctx.code_facts@, ctx.sources@, vs);
                        let names = mentioned_identifiers(sections[s].text.as_str());
                        let bodies = fetch_bodies(&names, &ctx.code_facts, &ctx.sources);
                        proof {
                            let ns = texts(names@);
                            lemma_named_bodies_nonempty(ns, ctx.code_facts@, ctx.sources@);
                            assert(pair_texts(bodies@).len() == bodies@.len());
                            let t = sections@[s as int].text@;
                            if section_has_code(t, ctx.code_facts@, ctx.sources@) {
                                let n = choose|n: Seq<char>| mentions_of(split_seq(t, '`')).contains(n) && #[trigger] fn_body(ctx.code_facts@, ctx.sources@, n) is Some;
                                assert(ns.contains(n));
                                let k = choose|k: int| 0 <= k < ns.len() && ns[k] == n;
                                assert(fn_body(ctx.code_facts@, ctx.sources@, ns[k]) is Some);
                            }
                            if bodies@.len() > 0 {
                                let k = choose|k: int| 0 <= k < ns.len() && (#[trigger] fn_body(ctx.code_facts@, ctx.sources@, ns[k])) is Some;
                                assert(ns.contains(ns[k]));
                                assert(mentions_of(split_seq(t, '`')).contains(ns[k]));
                            }
                        }
                        let mut asked: Option<LlmVerdict> = None;
                        if bodies.len() > 0 {
                            let prompt = render_user_prompt(sections[s].text.as_str(), &bodies);
                            let system = outdated_system_prompt_text();
                            let user = prompt.as_str();
                            asked = self.client.evaluate(system, user);
                            let ghost v = asked;
                            proof {
                                let ns = texts(names@);
                                assert(model_asked(&*self.client(), outdated_system_prompt(), outdated_prompt(secs[s as int].0, named_bodies(ns, ctx.code_facts@, ctx.sources@)), v));
                                assert(section_asked(&*self.client(), secs[s as int].0, ctx.code_facts@, ctx.sources@, v));
                            }
                            let line = sections[s].line;
                            let d = outdated_divergence(md, line, asked);
                            push_finding(&mut out, d, Ghost(prev), Ghost(outdated_of(md@, line, v)));
                            proof {
                                assert(secs[s as int].1 as u32 == sections[s as int].line);
                            }
                        } else {
                            proof {
                                assert(prev + Seq::<Finding>::empty() =~= prev);
                                assert(section_asked(&*self.client(), secs[s as int].0, ctx.code_facts@, ctx.sources@, asked));
                            }
                        }
                        proof {
                            let next = vs.push(asked);
                            assert(next.drop_last() =~= vs);
                            assert forall|b: int| 0 <= b < s + 1 implies section_asked(&*self.client(), secs[b].0, ctx.code_facts@, ctx.sources@, #[trigger] next[b]) by {
                                if b < s {
                                    assert(next[b] == vs[b]);
                                }
                            }
                            assert(done + section_findings(md@, secs.take(s + 1), ctx.code_facts@, ctx.sources@, next)
                                =~= prev + if section_has_code(secs[s as int].0, ctx.code_facts@, ctx.sources@) {
                                    opt_seq(outdated_of(md@, secs[s as int].1 as u32, asked))
                                } else {
                                    Seq::<Finding>::empty()
                                });
                            vs = next;
                        }
                    }
                    proof {
                        assert(secs.take(sections.len() as int) =~= secs);
                    }
                },
            }
            proof {
                let next = vss.push(vs);
                assert(next.drop_last() =~= vss);
                assert(next.last() == vs);
                assert forall|j: int| 0 <= j < i + 1 implies (#[trigger] next[j]).len() == file_sections(*ctx, ctx.markdown_files@[j]@).len() by {
                    if j < i {
                        assert(next[j] == vss[j]);
                    }
                }
                assert forall|a: int, b: int| 0 <= a < i + 1 && 0 <= b < next[a].len() implies section_asked(
                    &*self.client(),
                    file_sections(*ctx, ctx.markdown_files@[a]@)[b].0,
                    ctx.code_facts@,
                    ctx.sources@,
                    #[trigger] next[a][b],
                ) by {
                    if a < i {
                        assert(next[a] == vss[a]);
                    } else {
                        assert(next[a] == vs);
                        assert(vs[b] == next[a][b]);
                    }
                }
                vss = next;
            }
        }
        proof {
            assert(ctx.markdown_files@.take(ctx.markdown_files.len() as int) =~= ctx.markdown_files@);
        }
        out
    }
}

} // verus!
