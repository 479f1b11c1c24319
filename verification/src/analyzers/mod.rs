//! The analyzers: one per coherence rule.
pub mod ci;
pub mod constraint;
pub mod coverage;
pub mod deprecated;
pub mod docs;
pub mod env;
pub mod examples;
pub mod logic_gap;
pub mod outdated_logic;
pub mod tests;
pub mod analyzer;

pub use analyzer::DriftAnalyzer;
pub use ci::{CargoMetadata, CiAnalyzer};
pub use constraint::ConstraintAnalyzer;
pub use coverage::MissingCoverageAnalyzer;
pub use deprecated::DeprecatedUsageAnalyzer;
pub use docs::DocsAnalyzer;
pub use env::EnvMismatchAnalyzer;
pub use examples::{CargoRunner, ExamplesAnalyzer};
pub use logic_gap::LogicGapAnalyzer;
pub use outdated_logic::OutdatedLogicAnalyzer;
pub use tests::TestsAnalyzer;
