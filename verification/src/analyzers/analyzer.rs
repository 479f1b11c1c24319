//! The analyzer interface.
use vstd::prelude::*;
use crate::context::ProjectContext;
use crate::domain::Divergence;

verus! {

/// A `DriftAnalyzer` owns one coherence pillar (docs / examples / tests / CI).
///
/// Analyzers are independent by construction — they must not depend on each
/// other's output — so a caller may run them in parallel.
pub trait DriftAnalyzer: Send + Sync {
    fn id(&self) -> &'static str;

    fn analyze(&self, ctx: &ProjectContext) -> Vec<Divergence>
        requires
            ctx.wf(),
    ;
}

} // verus!
