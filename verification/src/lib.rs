//! Additive-only phase and choke kernels, their trace and audit formats,
//! with the contracts and laws that Verus proves of them.

pub mod math_error;
pub mod additive;
pub mod choke_additive;
pub mod choke_schema;
pub mod recursive;
pub mod text;
pub mod scenario;
pub mod bytes;
pub mod audit_format;
pub mod node_record;
pub mod gpu_tools;
pub mod cli;
pub mod audit_run;
pub mod engine_kinds;

