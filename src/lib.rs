//! Reconciliation of a geocoded set of live camera streams: discovery of candidate
//! identifiers, a quota-aware credential pool, a tiered location cascade with a content
//! filter, liveness revalidation, and the merge and safety check before persistence.

pub mod coord;
pub mod idset;
pub mod locset;
pub mod words;
pub mod rotation;
pub mod cascade;
pub mod gate;
pub mod revalidate;
pub mod discovery;
pub mod lines;
pub mod artifact;
