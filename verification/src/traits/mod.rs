//! Bindings of the pipeline types to concrete batch and error types.
pub mod arrow;
