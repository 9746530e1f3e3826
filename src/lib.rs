//! Update-graph service core: graph assembly from upstream release metadata,
//! per-client rollout policy, and the refresh state machine of the scraper.
pub mod error;
pub mod metadata;
pub mod graph;
pub mod policy;
pub mod parse;
pub mod wariness;
pub mod scraper;
pub mod template;
