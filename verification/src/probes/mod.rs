//! The probes.

pub mod exec;
pub mod file;
pub mod grpc;
pub mod http;
pub mod http_body;
pub mod tcp;
