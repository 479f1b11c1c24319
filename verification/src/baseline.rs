//! `--baseline` support.
//!
//! A baseline is a set of divergence identities taken from an earlier run.
//! Subtracting it keeps only *new* divergences, so `spec-drift` can be
//! adopted on a legacy repo without a flag-day cleanup.
//!
//! Identity is `(rule, file, line, stated)` — deliberately loose on the `risk`
//! and `reality` fields so small prose edits in the analyzer don't invalidate
//! the baseline. Reading the baseline file is the caller's business; this
//! module works on the divergences read from it.
use vstd::prelude::*;
use crate::domain::{Divergence, RuleId};
use crate::text::str_eq;

verus! {

/// The identity of a divergence for baseline purposes.
#[derive(Debug, Clone, PartialEq, Eq, Hash)]
pub struct Identity {
    pub rule: RuleId,
    pub file: String,
    pub line: u32,
    pub stated: String,
}

/// The identity of `d`.
pub open spec fn identity_of(d: Divergence) -> Identity {
    Identity { rule: d.rule, file: d.location.file, line: d.location.line, stated: d.stated }
}

/// `id` is the identity of `d` (texts compared by content).
pub open spec fn identifies(id: Identity, d: Divergence) -> bool {
    &&& id.rule == d.rule
    &&& id.file@ == d.location.file@
    &&& id.line == d.location.line
    &&& id.stated@ == d.stated@
}

/// Some identity of the baseline is that of `d`.
pub open spec fn in_baseline(baseline: Seq<Identity>, d: Divergence) -> bool {
    exists|k: int| 0 <= k < baseline.len() && identifies(#[trigger] baseline[k], d)
}

/// The divergences of `divs` that the baseline does not know, in order.
pub open spec fn new_divergences(divs: Seq<Divergence>, baseline: Seq<Identity>) -> Seq<Divergence> {
    divs.filter(|d: Divergence| !in_baseline(baseline, d))
}

impl<'a> From<&'a Divergence> for Identity {
    fn from(d: &'a Divergence) -> (id: Identity) {
        Identity {
            rule: d.rule,
            file: d.location.file.clone(),
            line: d.location.line,
            stated: d.stated.clone(),
        }
    }
}

impl<'a> vstd::std_specs::convert::FromSpecImpl<&'a Divergence> for Identity {
    open spec fn obeys_from_spec() -> bool {
        true
    }

    open spec fn from_spec(d: &'a Divergence) -> Identity {
        identity_of(*d)
    }
}

fn identifies_exec(id: &Identity, d: &Divergence) -> (b: bool)
    ensures
        b == identifies(*id, *d),
{
    id.rule == d.rule && id.line == d.location.line && str_eq(
        id.file.as_str(),
        d.location.file.as_str(),
    ) && str_eq(id.stated.as_str(), d.stated.as_str())
}

fn known(baseline: &Vec<Identity>, d: &Divergence) -> (b: bool)
    ensures
        b == in_baseline(baseline@, *d),
{
    for k in 0..baseline.len()
        invariant
            forall|j: int| 0 <= j < k ==> !identifies(#[trigger] baseline@[j], *d),
    {
        if identifies_exec(&baseline[k], d) {
            return true;
        }
    }
    false
}

/// The identities of a divergence list (what loading a baseline file keeps).
pub fn identities_of(divs: &Vec<Divergence>) -> (ids: Vec<Identity>)
    ensures
        ids@ == divs@.map_values(|d: Divergence| identity_of(d)),
{
    let mut ids: Vec<Identity> = Vec::new();
    for i in 0..divs.len()
        invariant
            ids@ == divs@.take(i as int).map_values(|d: Divergence| identity_of(d)),
    {
        ids.push(Identity::from(&divs[i]));
        assert(divs@.take(i + 1) =~= divs@.take(i as int).push(divs@[i as int]));
    }
    assert(divs@.take(divs.len() as int) =~= divs@);
    ids
}

/// Drop divergences already present in the baseline. The returned Vec
/// preserves the input order of "new" divergences.
pub fn subtract(divs: Vec<Divergence>, baseline: &Vec<Identity>) -> (out: Vec<Divergence>)
    ensures
        out@ == new_divergences(divs@, baseline@),
{
    let ghost pred = |d: Divergence| !in_baseline(baseline@, d);
    let mut out: Vec<Divergence> = Vec::new();
    for i in 0..divs.len()
        invariant
            pred == (|d: Divergence| !in_baseline(baseline@, d)),
            out@ == divs@.take(i as int).filter(pred),
    {
        let seen = known(baseline, &divs[i]);
        proof {
            assert(divs@.take(i + 1).drop_last() =~= divs@.take(i as int));
            reveal(Seq::filter);
        }
        if !seen {
            out.push(divs[i].duplicate());
        }
    }
    assert(divs@.take(divs.len() as int) =~= divs@);
    out
}

// ---------------------------------------------------------------------------
// Laws
// ---------------------------------------------------------------------------

proof fn lemma_filter_all_false(s: Seq<Divergence>, p: spec_fn(Divergence) -> bool)
    requires
        forall|k: int| 0 <= k < s.len() ==> !p(#[trigger] s[k]),
    ensures
        s.filter(p) == Seq::<Divergence>::empty(),
    decreases s.len(),
{
    reveal(Seq::filter);
    if s.len() > 0 {
        lemma_filter_all_false(s.drop_last(), p);
    }
}

proof fn lemma_filter_all_true(s: Seq<Divergence>, p: spec_fn(Divergence) -> bool)
    requires
        forall|k: int| 0 <= k < s.len() ==> p(#[trigger] s[k]),
    ensures
        s.filter(p) == s,
    decreases s.len(),
{
    reveal(Seq::filter);
    if s.len() > 0 {
        lemma_filter_all_true(s.drop_last(), p);
        assert(s.drop_last().push(s.last()) =~= s);
    }
}

proof fn lemma_filter_idempotent(s: Seq<Divergence>, p: spec_fn(Divergence) -> bool)
    ensures
        s.filter(p).filter(p) == s.filter(p),
{
    broadcast use Seq::lemma_filter_pred;

    lemma_filter_all_true(s.filter(p), p);
}

/// A baseline taken from a run drops every divergence of that run.
pub proof fn lemma_baseline_of_run_drops_everything(divs: Seq<Divergence>)
    ensures
        new_divergences(divs, divs.map_values(|d: Divergence| identity_of(d))) == Seq::<
            Divergence,
        >::empty(),
{
    let ids = divs.map_values(|d: Divergence| identity_of(d));
    assert forall|k: int| 0 <= k < divs.len() implies in_baseline(ids, #[trigger] divs[k]) by {
        assert(identifies(ids[k], divs[k]));
    }
    lemma_filter_all_false(divs, |d: Divergence| !in_baseline(ids, d));
}

/// Identity is deliberately loose on prose: a divergence whose severity,
/// reality, risk or attribution changed is still the one the baseline knows.
pub proof fn lemma_identity_ignores_prose(baseline: Seq<Identity>, a: Divergence, b: Divergence)
    requires
        a.rule == b.rule,
        a.location == b.location,
        a.stated@ == b.stated@,
    ensures
        in_baseline(baseline, a) == in_baseline(baseline, b),
{
}

/// An empty baseline keeps every divergence.
pub proof fn lemma_empty_baseline_keeps_everything(divs: Seq<Divergence>)
    ensures
        new_divergences(divs, Seq::<Identity>::empty()) == divs,
{
    lemma_filter_all_true(divs, |d: Divergence| !in_baseline(Seq::<Identity>::empty(), d));
}

/// Subtracting the same baseline twice changes nothing more.
pub proof fn lemma_subtract_idempotent(divs: Seq<Divergence>, baseline: Seq<Identity>)
    ensures
        new_divergences(new_divergences(divs, baseline), baseline) == new_divergences(divs, baseline),
{
    lemma_filter_idempotent(divs, |d: Divergence| !in_baseline(baseline, d));
}

/// Whatever survives a baseline is not in it, and every divergence not in it
/// survives.
pub proof fn lemma_subtract_keeps_exactly_new(divs: Seq<Divergence>, baseline: Seq<Identity>)
    ensures
        forall|k: int| 0 <= k < new_divergences(divs, baseline).len() ==> !in_baseline(
            baseline,
            #[trigger] new_divergences(divs, baseline)[k],
        ),
        forall|k: int| 0 <= k < divs.len() && !in_baseline(baseline, #[trigger] divs[k]) ==>
            new_divergences(divs, baseline).contains(divs[k]),
{
    broadcast use Seq::lemma_filter_pred, Seq::lemma_filter_contains;

}

} // verus!
