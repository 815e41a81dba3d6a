//! The core of a personal knowledge base: evidence extracted from documents
//! is merged, document by document and run by run, into a store of curated
//! knowledge with an approval lifecycle.
//!
//! - `evidence`, `knowledge`: the two stores and their merge rules.
//! - `evidences`, `knowledge_builder`, `signals`, `org_identity_resolver`:
//!   the passes that fold, derive, rank and cluster.
//! - `pipeline`, `resolver`: what a run does next and what it records.
//! - `todos`, `knowledge_overview`, `knowledge_graph`, `sessions`: what the
//!   user sees and decides.
//! - `agents`, `entities`, `paths`: keys, names and the filing of findings.
//! - `text`, `sets`, `sorting`, `metadata`, `clock`: the ground they stand on.
//!
//! Confidence is counted in millionths throughout.

pub mod agents;
pub mod clock;
pub mod entities;
pub mod evidence;
pub mod evidences;
pub mod knowledge;
pub mod knowledge_builder;
pub mod knowledge_graph;
pub mod knowledge_overview;
pub mod metadata;
pub mod org_identity_resolver;
pub mod paths;
pub mod pipeline;
pub mod resolver;
pub mod sessions;
pub mod sets;
pub mod signals;
pub mod sorting;
pub mod text;
pub mod todos;
