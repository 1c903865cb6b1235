//! What holds of the library as a whole, over its inputs and results.

pub mod address;
pub mod arguments;
pub mod body;
pub mod command;
pub mod expansion;
pub mod file_check;
pub mod grpc_check;
pub mod messages;
pub mod report;
pub mod request;
pub mod response;
pub mod secure;
pub mod tcp_check;
pub mod texts;
