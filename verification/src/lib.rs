//! `spec_drift` — semantic coherence analysis between a project's
//! specification surfaces (README, AGENTS.md, examples, CI) and its Rust code.

pub mod domain;
pub mod text;
pub mod paths;
pub mod blame;
pub mod reporters;
pub mod pipeline;
pub mod baseline;
pub mod context;
pub mod suppress;
pub mod workspace;
pub mod error;
pub mod config;
pub mod parsers;
pub mod auto_fix;
pub mod llm;
pub mod patterns;
pub mod analyzers;
pub mod sources;
pub mod coherency;

pub use config::{apply_config, Config};
pub use context::ProjectContext;
pub use domain::{
    Attribution, ClaimKind, CodeFact, Confidence, Divergence, FactKind, Location, RuleId, Severity,
    SpecClaim,
};
pub use error::SpecDriftError;
pub use pipeline::{apply_strict, normalize_locations, Pillar};
