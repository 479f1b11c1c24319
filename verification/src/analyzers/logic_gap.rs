//! `logic_gap`: example narratives that no longer describe the public API.
use vstd::prelude::*;
use std::sync::Arc;
use crate::analyzers::analyzer::DriftAnalyzer;
use crate::auto_fix::{comment_rest, public_names, strictly_sorted, same_texts, public_function_names};
use crate::context::{source_for, ProjectContext};
use crate::analyzers::constraint::{opt_seq, push_finding};
use crate::domain::{are_findings, finding, is_finding, Divergence, Finding, RuleId, Severity};
use crate::llm::{model_asked, LlmClient, LlmVerdict};
use crate::paths::{components, path_components, path_strip_prefix};
use crate::text::{
    chars_of, lines_of, push_chars, push_str, slice_chars, split_lines, starts_with,
    str_eq, string_of, texts, trim, trim_seq, trim_start, trim_start_seq, views,
};

verus! {

/// LogicGapAnalyzer — enforces `logic_gap` (experimental, Notice).
///
/// For every `examples/*.rs` with a leading `//!` or `//` narrative, the
/// narrative and the names of the library's public functions go to the
/// model; when it decides the narrative no longer holds, a Notice is
/// emitted. A client that does not answer means no divergence.
pub struct LogicGapAnalyzer<C: LlmClient + ?Sized> {
    client: Arc<C>,
}

impl<C: LlmClient + ?Sized> LogicGapAnalyzer<C> {
    pub fn new(client: Arc<C>) -> (a: LogicGapAnalyzer<C>)
        ensures
            a.client() == client,
    {
        LogicGapAnalyzer { client }
    }

    /// The model this analyzer asks.
    pub closed spec fn client(&self) -> Arc<C> {
        self.client
    }
}

pub open spec fn logic_gap_system_prompt() -> Seq<char> {
    "You are auditing Rust example code for drift from a library's public API. You receive (1) the narrative comment at the top of an example file, and (2) the signatures of every currently-public function in the library. Decide whether the narrative still matches a valid usage pattern of the current API. Reply ONLY with a JSON object of the shape `{\"match_spec\": <bool>, \"reason\": \"<short explanation>\"}`. No prose before or after."@
}

pub fn logic_gap_system_prompt_text() -> (p: &'static str)
    ensures
        p@ == logic_gap_system_prompt(),
{
    "You are auditing Rust example code for drift from a library's public API. You receive (1) the narrative comment at the top of an example file, and (2) the signatures of every currently-public function in the library. Decide whether the narrative still matches a valid usage pattern of the current API. Reply ONLY with a JSON object of the shape `{\"match_spec\": <bool>, \"reason\": \"<short explanation>\"}`. No prose before or after."
}

/// The leading comment block of an example, line by line, and whether code
/// has been reached.
pub open spec fn narrative_lines(ls: Seq<Seq<char>>) -> (Seq<char>, bool)
    decreases ls.len(),
{
    if ls.len() == 0 {
        (Seq::empty(), false)
    } else {
        let (buf, stopped) = narrative_lines(ls.drop_last());
        let t = trim_start_seq(ls.last());
        if stopped {
            (buf, true)
        } else {
            match comment_rest(t) {
                Some(rest) => (buf + trim_seq(rest) + "\n"@, false),
                None => if t.len() == 0 {
                    (
                        if buf.len() > 0 {
                            buf + "\n"@
                        } else {
                            buf
                        },
                        false,
                    )
                } else {
                    (buf, true)
                },
            }
        }
    }
}

/// The narrative of an example: its leading comment lines without their
/// markers, trimmed; none when shorter than 16 bytes.
pub open spec fn narrative_of(src: Seq<char>) -> Option<Seq<char>> {
    let t = trim_seq(narrative_lines(lines_of(src)).0);
    if vstd::utf8::encode_utf8(t).len() < 16 {
        None
    } else {
        Some(t)
    }
}

/// Extract the leading narrative of an example's source.
pub fn read_narrative(src: &str) -> (r: Option<String>)
    ensures
        match narrative_of(src@) {
            Some(t) => r matches Some(s) && s@ == t,
            None => r is None,
        },
{
    let lines = split_lines(&chars_of(src));
    let ghost ls = views(lines@);
    let mut buf = String::new();
    let mut stopped = false;
    for k in 0..lines.len()
        invariant
            ls == views(lines@),
            ls == lines_of(src@),
            (buf@, stopped) == narrative_lines(ls.take(k as int)),
    {
        assert(ls.take(k + 1).drop_last() =~= ls.take(k as int));
        if !stopped {
            let t = trim_start(&lines[k]);
            proof {
                reveal_strlit("//!");
                reveal_strlit("//");
            }
            if starts_with(&t, &chars_of("//!")) {
                let rest = slice_chars(&t, 3, t.len());
                push_chars(&mut buf, trim(&rest).as_slice());
                push_str(&mut buf, "\n");
            } else if starts_with(&t, &chars_of("//")) {
                let rest = slice_chars(&t, 2, t.len());
                push_chars(&mut buf, trim(&rest).as_slice());
                push_str(&mut buf, "\n");
            } else if t.len() == 0 {
                if buf.as_str().is_empty() {
                } else {
                    push_str(&mut buf, "\n");
                }
            } else {
                stopped = true;
            }
        }
    }
    assert(ls.take(lines.len() as int) =~= ls);
    let t = string_of(&trim(&chars_of(buf.as_str())));
    if t.as_str().as_bytes().len() < 16 {
        None
    } else {
        Some(t)
    }
}

/// The user prompt: the narrative, then each public function name.
pub open spec fn name_list(names: Seq<Seq<char>>) -> Seq<char>
    decreases names.len(),
{
    if names.len() == 0 {
        Seq::empty()
    } else {
        name_list(names.drop_last()) + "- "@ + names.last() + "\n"@
    }
}

pub open spec fn logic_gap_prompt(narrative: Seq<char>, names: Seq<Seq<char>>) -> Seq<char> {
    "## Example narrative\n"@ + narrative + "\n\n## Public functions in the library\n"@ + name_list(names)
        + "\nRespond with the JSON object described in the system prompt."@
}

pub fn render_prompt(narrative: &str, public_fns: &Vec<String>) -> (p: String)
    ensures
        p@ == logic_gap_prompt(narrative@, texts(public_fns@)),
{
    let mut prompt = String::new();
    push_str(&mut prompt, "## Example narrative\n");
    push_str(&mut prompt, narrative);
    push_str(&mut prompt, "\n\n## Public functions in the library\n");
    let ghost start = prompt@;
    let ghost ns = texts(public_fns@);
    for i in 0..public_fns.len()
        invariant
            ns == texts(public_fns@),
            prompt@ == start + name_list(ns.take(i as int)),
    {
        assert(ns.take(i + 1).drop_last() =~= ns.take(i as int));
        push_str(&mut prompt, "- ");
        push_str(&mut prompt, public_fns[i].as_str());
        push_str(&mut prompt, "\n");
    }
    assert(ns.take(public_fns.len() as int) =~= ns);
    push_str(&mut prompt, "\nRespond with the JSON object described in the system prompt.");
    prompt
}

/// The divergence a verdict on an example's narrative makes: one when the
/// model answered that the narrative does not match.
pub open spec fn logic_gap_of(rel: Seq<char>, verdict: Option<LlmVerdict>) -> Option<Finding> {
    match verdict {
        None => None,
        Some(v) => if v.match_spec {
            None
        } else {
            Some(
                Finding {
                    rule: RuleId::LogicGap,
                    severity: Severity::Notice,
                    file: rel,
                    line: 1,
                    stated: "example narrative describes current API usage"@,
                    reality: v.reason@,
                    risk: "Example teaches a pattern the public API no longer supports."@,
                },
            )
        },
    }
}

pub fn logic_gap_divergence(rel: &str, verdict: Option<LlmVerdict>) -> (r: Option<Divergence>)
    ensures
        match logic_gap_of(rel@, verdict) {
            Some(x) => r matches Some(d) && is_finding(d, x),
            None => r is None,
        },
{
    match verdict {
        None => None,
        Some(v) => if v.match_spec {
            None
        } else {
            Some(finding(RuleId::LogicGap, Severity::Notice, rel, 1, "example narrative describes current API usage".to_owned(), v.reason, "Example teaches a pattern the public API no longer supports."))
        },
    }
}

/// A path with an `examples` component.
pub open spec fn example_path(path: Seq<char>) -> bool {
    path_components(path).contains("examples"@)
}

pub fn is_example_path(path: &str) -> (b: bool)
    ensures
        b == example_path(path@),
{
    let comps = components(path);
    for k in 0..comps.len()
        invariant
            texts(comps@) == path_components(path@),
            forall|j: int| 0 <= j < k ==> texts(comps@)[j] != "examples"@,
    {
        if str_eq(comps[k].as_str(), "examples") {
            assert(texts(comps@)[k as int] == "examples"@);
            return true;
        }
    }
    false
}

/// The narrative of `path` when it is an example file that was read.
pub open spec fn example_narrative_of(ctx: ProjectContext, path: Seq<char>) -> Option<Seq<char>> {
    if example_path(path) {
        match source_for(ctx.sources@, path) {
            Some(t) => narrative_of(t),
            None => None,
        }
    } else {
        None
    }
}

/// A path relative to the analysis root, else to the root.
pub open spec fn relative_path(ctx: ProjectContext, path: Seq<char>) -> Seq<char> {
    match path_strip_prefix(path, ctx.analysis_root@) {
        Some(p) => p,
        None => match path_strip_prefix(path, ctx.root@) {
            Some(p) => p,
            None => path,
        },
    }
}

/// The divergences of the example files `files` when the model answered
/// `verdicts[i]` about the narrative of `files[i]`.
pub open spec fn logic_gaps(files: Seq<String>, ctx: ProjectContext, verdicts: Seq<Option<LlmVerdict>>) -> Seq<Finding>
    decreases files.len(),
{
    if files.len() == 0 || verdicts.len() == 0 {
        Seq::empty()
    } else {
        logic_gaps(files.drop_last(), ctx, verdicts.drop_last()) + match example_narrative_of(ctx, files.last()@) {
            Some(_) => opt_seq(logic_gap_of(relative_path(ctx, files.last()@), verdicts.last())),
            None => Seq::empty(),
        }
    }
}

/// The model was asked about `file` as the analyzer asks: when the file is
/// an example with a narrative, `v` is a reply to the system prompt and the
/// user prompt of that narrative and `names`.
pub open spec fn gap_asked<C: LlmClient + ?Sized>(client: &C, ctx: ProjectContext, names: Seq<Seq<char>>, file: Seq<char>, v: Option<LlmVerdict>) -> bool {
    match example_narrative_of(ctx, file) {
        Some(n) => model_asked(client, logic_gap_system_prompt(), logic_gap_prompt(n, names), v),
        None => true,
    }
}

impl<C: LlmClient + ?Sized> DriftAnalyzer for LogicGapAnalyzer<C> {
    fn id(&self) -> (s: &'static str)
        ensures
            s@ == "logic_gap"@,
    {
        "logic_gap"
    }

    /// Nothing without public functions. Otherwise the model is asked
    /// about each example narrative, with the public function names sorted
    /// once each, and the divergences are those that `logic_gap_of` makes of
    /// its replies, file by file.
    fn analyze(&self, ctx: &ProjectContext) -> (out: Vec<Divergence>)
        ensures
            public_function_names(ctx.code_facts@).len() == 0 ==> out@.len() == 0,
            public_function_names(ctx.code_facts@).len() > 0 ==> exists|names: Seq<Seq<char>>, verdicts: Seq<Option<LlmVerdict>>|
                strictly_sorted(names) && same_texts(names, public_function_names(ctx.code_facts@))
                && verdicts.len() == ctx.rust_files@.len()
                && are_findings(out@, logic_gaps(ctx.rust_files@, *ctx, verdicts))
                && forall|j: int| 0 <= j < verdicts.len() ==> gap_asked(&*self.client(), *ctx, names, #[trigger] ctx.rust_files@[j]@, verdicts[j]),
    {
        let names = public_names(&ctx.code_facts);
        let mut out: Vec<Divergence> = Vec::new();
        if names.len() == 0 {
            proof {
                if public_function_names(ctx.code_facts@).len() > 0 {
                    assert(public_function_names(ctx.code_facts@).contains(public_function_names(ctx.code_facts@)[0]));
                }
            }
            return out;
        }
        proof {
            assert(texts(names@).contains(texts(names@)[0]));
            assert(public_function_names(ctx.code_facts@).contains(texts(names@)[0]));
        }
        let ghost mut verdicts: Seq<Option<LlmVerdict>> = Seq::empty();
        for i in 0..ctx.rust_files.len()
            invariant
                verdicts.len() == i,
                are_findings(out@, logic_gaps(ctx.rust_files@.take(i as int), *ctx, verdicts)),
                forall|j: int| 0 <= j < i ==> gap_asked(&*self.client(), *ctx, texts(names@), #[trigger] ctx.rust_files@[j]@, verdicts[j]),
        {
            proof {
                assert(ctx.rust_files@.take(i + 1).drop_last() =~= ctx.rust_files@.take(i as int));
            }
            let ghost before = out@;
            let ghost prev = logic_gaps(ctx.rust_files@.take(i as int), *ctx, verdicts);
            let path = ctx.rust_files[i].as_str();
            let mut asked: Option<LlmVerdict> = None;
            let mut narrated = false;
            if is_example_path(path) {
                match ctx.source(path) {
                    Some(src) => match read_narrative(src.as_str()) {
                        Some(narrative) => {
                            let prompt = render_prompt(narrative.as_str(), &names);
                            let system = logic_gap_system_prompt_text();
                            let user = prompt.as_str();
                            asked = self.client.evaluate(system, user);
                            assert(model_asked(&*self.client(), logic_gap_system_prompt(), logic_gap_prompt(narrative@, texts(names@)), asked));
                            narrated = true;
                        },
                        None => {},
                    },
                    None => {},
                }
            }
            let ghost v = asked;
            proof {
                assert(narrated == example_narrative_of(*ctx, ctx.rust_files@[i as int]@) is Some);
            }
            if narrated {
                let rel = ctx.rel(path);
                let d = logic_gap_divergence(rel.as_str(), asked);
                push_finding(&mut out, d, Ghost(prev), Ghost(logic_gap_of(rel@, v)));
            }
            proof {
                let next = verdicts.push(v);
                assert(next.drop_last() =~= verdicts);
                assert(gap_asked(&*self.client(), *ctx, texts(names@), ctx.rust_files@[i as int]@, v));
                assert(ctx.rust_files@.take(i + 1).last() == ctx.rust_files@[i as int]);
                if !narrated {
                    assert(prev + Seq::<Finding>::empty() =~= prev);
                }
                verdicts = next;
            }
        }
        proof {
            assert(ctx.rust_files@.take(ctx.rust_files.len() as int) =~= ctx.rust_files@);
        }
        out
    }
}

} // verus!
