//! A declarative infrastructure-reconciliation engine.
//!
//! A run takes a collection of resources, each with an identifier, declared
//! dependencies, and a desired state. The engine schedules the resources so
//! that every one comes after all its known dependencies (`graph`,
//! `engine::plan_all`), classifies per resource the operation that
//! reconciles its observed state toward its desired state (`resource`), and
//! executes a plan in order, stopping at the first failure
//! (`engine::apply_all`).
//!
//! Around the engine stand the declaration types and their rendering into
//! provider-configuration documents (`aws`, `azure`, `gcp`, `cfn`,
//! `render`), a document model with structural equality and deep merge
//! (`json`), plan-time checks (`policy`), and the choice of the
//! provisioning tool (`tfcompat`).

pub mod json;

pub mod aws;
pub mod azure;
pub mod cfn;
pub mod engine;
pub mod gcp;
pub mod graph;
pub mod policy;
pub mod render;
pub mod resource;
pub mod tfcompat;
