//! Point-in-time inventory of a Kubernetes-style cluster: the discovery
//! snapshot model, verb merging, catalog construction with synthetic
//! resources, metadata aggregation, and the object stamping and redaction
//! rules applied before objects are written out.
//!
//! All cluster and filesystem I/O lives outside this crate; the library
//! works on plain values handed in by the caller.

pub mod catalog;
pub mod codec;
pub mod discovery;
pub mod dump;
pub mod json;
pub mod metadata;
pub mod order;
pub mod verbs;
