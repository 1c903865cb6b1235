//! Container health check probes.

pub mod argv;
pub mod authority;
pub mod capture;
pub mod cli;
pub mod diagnostic;
pub mod entry;
pub mod env_expand;
pub mod error;
pub mod headers;
pub mod ipv6;
pub mod laws;
pub mod number;
pub mod os_text;
pub mod output;
pub mod probe;
pub mod probes;
pub mod text;
pub mod timing;
pub mod tls;
pub mod url_text;
pub mod validation;
pub mod text_match;
