//! LLM-backed rule support.
//!
//! Everything here is strictly opt-in: the default [`LlmConfig`] has
//! `enabled = false`, and `--no-llm` forces the null client regardless of
//! config.
//!
//! - The trait returns `Option<LlmVerdict>`. `None` is the universal
//!   "no answer available" signal — LLM disabled, budget exhausted, network
//!   error, timeout, malformed response. Analyzers treat `None` as "skip
//!   silently, don't emit drift" because the rules are experimental.
//! - The budget is enforced via an atomic counter on the wrapper, so
//!   analyzers can't overspend even when run in parallel.
//!
//! The HTTP providers live outside the library; it decides which client a
//! configuration asks for and reads the verdict out of a reply.
use vstd::prelude::*;
use std::sync::Arc;
use std::sync::atomic::{AtomicU32, Ordering};
use crate::text::{chars_of, ends_with, has_suffix, push_str, trim, trim_seq};

verus! {

/// Verdict an LLM returns when asked whether a spec claim still matches code.
#[derive(Debug, Clone, PartialEq, Eq)]
pub struct LlmVerdict {
    /// True when the spec text still accurately describes the code.
    pub match_spec: bool,
    /// Short human-readable explanation — shown in the divergence report.
    pub reason: String,
}

/// Minimum surface every LLM provider must implement.
pub trait LlmClient: Send + Sync {
    /// Ask the model whether `user_prompt` holds given the project context in
    /// `system_prompt`. Returns `None` on any failure mode — analyzers treat
    /// `None` as "skip, don't flag."
    fn evaluate(&self, system_prompt: &str, user_prompt: &str) -> Option<LlmVerdict>;

    /// Free-form completion, used by the coherency auto-corrections.
    /// Providers that cannot complete answer `None`.
    fn complete(&self, system_prompt: &str, user_prompt: &str) -> (r: Option<String>)
        default_ensures
            r is None,
    {
        None
    }
}

/// `answer` is a possible reply of `client.evaluate` to a system prompt
/// whose text is `system` and a user prompt whose text is `user`.
pub open spec fn model_asked<C: LlmClient + ?Sized>(client: &C, system: Seq<char>, user: Seq<char>, answer: Option<LlmVerdict>) -> bool {
    exists|s: &str, u: &str| s@ == system && u@ == user && #[trigger] call_ensures(C::evaluate, (client, s, u), answer)
}

/// LLM client that always returns `None`. Used whenever the `[llm]` block is
/// disabled, `--no-llm` is set, or a real provider isn't configured.
pub struct NullLlmClient;

impl LlmClient for NullLlmClient {
    fn evaluate(&self, system_prompt: &str, user_prompt: &str) -> (r: Option<LlmVerdict>)
        ensures
            r is None,
    {
        None
    }

    fn complete(&self, system_prompt: &str, user_prompt: &str) -> (r: Option<String>)
        ensures
            r is None,
    {
        None
    }
}

// ---------------------------------------------------------------------------
// Budget
// ---------------------------------------------------------------------------

/// One call's effect on the remaining budget: refused at zero, else one less.
pub open spec fn budget_step(remaining: u32) -> Option<u32> {
    if remaining == 0 {
        None
    } else {
        Some((remaining - 1) as u32)
    }
}

pub fn next_budget(remaining: u32) -> (r: Option<u32>)
    ensures
        r == budget_step(remaining),
{
    if remaining == 0 {
        None
    } else {
        Some(remaining - 1)
    }
}

/// The budget left after `k` calls, and how many of them were let through.
pub open spec fn budget_after(b: u32, k: nat) -> (u32, nat)
    decreases k,
{
    if k == 0 {
        (b, 0)
    } else {
        let (rem, granted) = budget_after(b, (k - 1) as nat);
        match budget_step(rem) {
            Some(next) => (next, granted + 1),
            None => (rem, granted),
        }
    }
}

/// Of `k` calls in a row against a budget of `b`, exactly `min(b, k)` reach
/// the provider.
pub proof fn lemma_budget_admits_exactly(b: u32, k: nat)
    ensures
        budget_after(b, k).1 == if k <= b {
            k
        } else {
            b as nat
        },
        budget_after(b, k).0 == if k <= b {
            (b - k) as u32
        } else {
            0u32
        },
    decreases k,
{
    if k > 0 {
        lemma_budget_admits_exactly(b, (k - 1) as nat);
    }
}

/// Calls `AtomicU32::fetch_update` with [`next_budget`]: the counter moves one
/// down unless it is zero. Its documentation: `Ok(previous)` when the
/// function returned `Some`, `Err(previous)` otherwise.
#[verifier::external_body]
fn take_budget(counter: &AtomicU32) -> (r: Result<u32, u32>)
    ensures
        match r {
            Ok(prev) => prev > 0,
            Err(prev) => prev == 0,
        },
{
    counter.fetch_update(Ordering::AcqRel, Ordering::Acquire, |x| next_budget(x))
}

/// Budget + kill-switch wrapper. Every real LLM call flows through here.
pub struct BudgetedClient<C: LlmClient + ?Sized> {
    inner: Arc<C>,
    remaining: AtomicU32,
}

impl<C: LlmClient + ?Sized> BudgetedClient<C> {
    pub fn new(inner: Arc<C>, budget: u32) -> (c: BudgetedClient<C>)
        ensures
            c.inner() == inner,
    {
        BudgetedClient { inner, remaining: AtomicU32::new(budget) }
    }

    /// The client the budget guards.
    pub closed spec fn inner(&self) -> Arc<C> {
        self.inner
    }
}

impl<C: LlmClient + ?Sized> LlmClient for BudgetedClient<C> {
    /// No answer once the budget is spent; otherwise what the guarded client
    /// answers.
    fn evaluate(&self, system_prompt: &str, user_prompt: &str) -> (r: Option<LlmVerdict>)
        ensures
            r is None || call_ensures(C::evaluate, (&*self.inner(), system_prompt, user_prompt), r),
    {
        match take_budget(&self.remaining) {
            Ok(_) => self.inner.evaluate(system_prompt, user_prompt),
            Err(_) => None,
        }
    }

    /// No answer once the budget is spent; otherwise what the guarded client
    /// answers.
    fn complete(&self, system_prompt: &str, user_prompt: &str) -> (r: Option<String>)
        ensures
            r is None || call_ensures(C::complete, (&*self.inner(), system_prompt, user_prompt), r),
    {
        match take_budget(&self.remaining) {
            Ok(_) => self.inner.complete(system_prompt, user_prompt),
            Err(_) => None,
        }
    }
}

// ---------------------------------------------------------------------------
// Configuration and client choice
// ---------------------------------------------------------------------------

#[derive(Debug, Clone, Copy, PartialEq, Eq, Structural)]
pub enum LlmProvider {
    Anthropic,
    OpenAi,
    Local,
}

/// The `[llm]` block.
#[derive(Debug, Clone, PartialEq, Eq)]
pub struct LlmConfig {
    pub enabled: bool,
    pub provider: LlmProvider,
    pub model: String,
    pub max_calls: u32,
    pub timeout_s: u32,
}

impl LlmConfig {
    /// The defaults: disabled, Anthropic, no model named, 50 calls per run,
    /// 30 s timeout.
    pub fn defaults() -> (c: LlmConfig)
        ensures
            !c.enabled,
            c.provider == LlmProvider::Anthropic,
            c.model@.len() == 0,
            c.max_calls == 50,
            c.timeout_s == 30,
    {
        LlmConfig {
            enabled: false,
            provider: LlmProvider::Anthropic,
            model: String::new(),
            max_calls: 50,
            timeout_s: 30,
        }
    }
}

/// Which client stack a run uses.
#[derive(Debug, Clone, Copy, PartialEq, Eq, Structural)]
pub enum ClientPlan {
    /// LLM rules off: the bare null client.
    Off,
    /// The Anthropic client behind the budget.
    BudgetedAnthropic,
    /// A provider that cannot be used (no key, or not implemented) behind
    /// the budget: it never answers.
    BudgetedNull,
}

pub open spec fn plan_for_config(enabled: bool, provider: LlmProvider, force_off: bool, has_key: bool) -> ClientPlan {
    if force_off || !enabled {
        ClientPlan::Off
    } else if provider == LlmProvider::Anthropic && has_key {
        ClientPlan::BudgetedAnthropic
    } else {
        ClientPlan::BudgetedNull
    }
}

/// LLM rules are opt-in and `--no-llm` always wins: a disabled
/// configuration or the flag gives the null client, whatever else is set.
pub proof fn lemma_llm_rules_opt_in(enabled: bool, provider: LlmProvider, force_off: bool, has_key: bool)
    ensures
        (force_off || !enabled) ==> plan_for_config(enabled, provider, force_off, has_key) == ClientPlan::Off,
        plan_for_config(enabled, provider, force_off, has_key) == ClientPlan::Off ==> (force_off || !enabled),
{
}

/// The client stack `cfg` asks for; `force_off` mirrors `--no-llm` and always
/// wins. `has_key` says whether a usable Anthropic API key is set.
pub fn client_plan(cfg: &LlmConfig, force_off: bool, has_key: bool) -> (p: ClientPlan)
    ensures
        p == plan_for_config(cfg.enabled, cfg.provider, force_off, has_key),
{
    if force_off || !cfg.enabled {
        ClientPlan::Off
    } else if cfg.provider == LlmProvider::Anthropic && has_key {
        ClientPlan::BudgetedAnthropic
    } else {
        ClientPlan::BudgetedNull
    }
}

/// An API key counts only when it is not blank.
pub fn usable_api_key(key: &str) -> (b: bool)
    ensures
        b == (trim_seq(key@).len() > 0),
{
    trim(&chars_of(key)).len() > 0
}

/// The chat-completions endpoint under an API base: the base itself when it
/// already names the endpoint, else the base with `/chat/completions`
/// appended (without doubling a trailing `/`).
pub open spec fn completions_url(base: Seq<char>) -> Seq<char> {
    if has_suffix(base, "/chat/completions"@) {
        base
    } else if base.len() > 0 && base.last() == '/' {
        base + "chat/completions"@
    } else {
        base + "/chat/completions"@
    }
}

pub fn chat_completions_url(base: &str) -> (url: String)
    ensures
        url@ == completions_url(base@),
{
    let b = chars_of(base);
    if ends_with(&b, &chars_of("/chat/completions")) {
        return base.to_owned();
    }
    let mut url = base.to_owned();
    if b.len() > 0 && b[b.len() - 1] == '/' {
        push_str(&mut url, "chat/completions");
    } else {
        push_str(&mut url, "/chat/completions");
    }
    url
}

/// The API base of a provider when no environment override is set.
pub fn default_api_base(provider: LlmProvider) -> (b: Option<&'static str>)
    ensures
        match provider {
            LlmProvider::OpenAi => b matches Some(s) && s@ == "https://api.openai.com/v1"@,
            LlmProvider::Local => b matches Some(s) && s@ == "http://localhost:8080/v1"@,
            LlmProvider::Anthropic => b is None,
        },
{
    match provider {
        LlmProvider::OpenAi => Some("https://api.openai.com/v1"),
        LlmProvider::Local => Some("http://localhost:8080/v1"),
        LlmProvider::Anthropic => None,
    }
}

// ---------------------------------------------------------------------------
// Reading a verdict out of a reply
// ---------------------------------------------------------------------------

/// `{` minus `}` among `bytes[from..to]`.
pub open spec fn brace_depth(bytes: Seq<u8>, from: int, to: int) -> int
    decreases to - from,
{
    if to <= from {
        0
    } else {
        brace_depth(bytes, from, to - 1) + if bytes[to - 1] == 123u8 {
            1int
        } else if bytes[to - 1] == 125u8 {
            -1int
        } else {
            0int
        }
    }
}

/// The first index of byte `b` (the length when absent).
pub open spec fn first_byte(bytes: Seq<u8>, b: u8) -> int
    decreases bytes.len(),
{
    if bytes.len() == 0 {
        0
    } else if bytes[0] == b {
        0
    } else {
        1 + first_byte(bytes.drop_first(), b)
    }
}

/// The byte range of the first balanced `{...}` region: from the first `{`
/// to the first later point where the braces balance.
pub open spec fn brace_span(bytes: Seq<u8>) -> Option<(int, int)> {
    let start = first_byte(bytes, 123u8);
    if start >= bytes.len() {
        None
    } else if exists|j: int| start < j <= bytes.len() && brace_depth(bytes, start, j) == 0 {
        Some(
            (
                start,
                choose|j: int|
                    start < j <= bytes.len() && brace_depth(bytes, start, j) == 0 && forall|k: int|
                        start < k < j ==> brace_depth(bytes, start, k) != 0,
            ),
        )
    } else {
        None
    }
}

proof fn lemma_first_byte_at(bytes: Seq<u8>, b: u8, i: int)
    requires
        0 <= i <= bytes.len(),
        forall|k: int| 0 <= k < i ==> bytes[k] != b,
        i == bytes.len() || bytes[i] == b,
    ensures
        first_byte(bytes, b) == i,
    decreases bytes.len(),
{
    if bytes.len() > 0 && i > 0 {
        assert forall|k: int| 0 <= k < i - 1 implies bytes.drop_first()[k] != b by {
            assert(bytes[k + 1] != b);
        }
        lemma_first_byte_at(bytes.drop_first(), b, i - 1);
    }
}

proof fn lemma_span_found(bs: Seq<u8>, start: int, j: int)
    requires
        0 <= start < j <= bs.len(),
        first_byte(bs, 123u8) == start,
        brace_depth(bs, start, j) == 0,
        forall|k: int| start < k < j ==> brace_depth(bs, start, k) != 0,
    ensures
        brace_span(bs) == Some((start, j)),
{
    let c = choose|c: int|
        start < c <= bs.len() && brace_depth(bs, start, c) == 0 && forall|k: int|
            start < k < c ==> brace_depth(bs, start, k) != 0;
    assert(start < j <= bs.len() && brace_depth(bs, start, j) == 0);
    if c < j {
        assert(brace_depth(bs, start, c) != 0);
    } else if c > j {
        assert(brace_depth(bs, start, j) != 0);
    }
}

/// The byte range of the first balanced `{...}` region of a model reply, the
/// part that is decoded as the verdict.
pub fn verdict_span(text: &str) -> (r: Option<(usize, usize)>)
    requires
        vstd::utf8::encode_utf8(text@).len() < 0x7fff_ffff_ffff_ffff,
    ensures
        match brace_span(vstd::utf8::encode_utf8(text@)) {
            Some((a, b)) => r == Some((a as usize, b as usize)),
            None => r is None,
        },
{
    let bytes = text.as_bytes();
    let ghost bs = bytes@;
    assert(bs == vstd::utf8::encode_utf8(text@));
    let mut start: usize = 0;
    while start < bytes.len() && bytes[start] != 123u8
        invariant
            start <= bytes.len(),
            bs == bytes@,
            forall|k: int| 0 <= k < start ==> bs[k] != 123u8,
        decreases bytes.len() - start,
    {
        start = start + 1;
    }
    proof {
        lemma_first_byte_at(bs, 123u8, start as int);
    }
    if start >= bytes.len() {
        return None;
    }
    let mut depth: i64 = 0;
    let mut i: usize = start;
    while i < bytes.len()
        invariant
            start <= i <= bytes.len(),
            bs == bytes@,
            bs.len() < 0x7fff_ffff_ffff_ffff,
            start < bytes.len(),
            bs[start as int] == 123u8,
            depth == brace_depth(bs, start as int, i as int),
            first_byte(bs, 123u8) == start,
            bs == vstd::utf8::encode_utf8(text@),
            -(i as int) <= depth <= i as int,
            i == start || depth > 0,
            forall|k: int| start < k <= i ==> brace_depth(bs, start as int, k) != 0,
        decreases bytes.len() - i,
    {
        if bytes[i] == 123u8 {
            depth = depth + 1;
        } else if bytes[i] == 125u8 {
            depth = depth - 1;
            if depth == 0 {
                proof {
                    lemma_span_found(bs, start as int, i + 1);
                }
                return Some((start, i + 1));
            }
        }
        i = i + 1;
    }
    None
}

} // verus!
