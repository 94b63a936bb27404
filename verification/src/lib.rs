//! A verified knowledge-wiki library: claims with a lifecycle, wiki page
//! text, lint rules, retrieval ranking and graph walks, outbox bookkeeping
//! and provider health, each stated by contracts that Verus checks.
pub mod text;
pub mod ids;
pub mod claim;
pub mod wiki;
pub mod event;
pub mod codec;
pub mod lint;
pub mod retrieval;
pub mod graph;
pub mod config;
pub mod health;
pub mod cli;
pub mod engine;
