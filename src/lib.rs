//! Core of a DAG-based BFT node: the committee model, the content-addressed
//! store's pending-read table and its laws, the stored batch format, the
//! certificate output pipeline, and the batch inspector.

pub mod committee;
pub mod encoding;
pub mod envelope;
pub mod inspector;
pub mod pipeline;
pub mod store;
pub mod store_model;
pub mod supervisor;
