//! A small server for a line-oriented document-transfer protocol: request
//! parsing, response encoding, per-host routing with path directives, the
//! CGI environment and output handling, and the worker job queue.

pub mod cgi;
pub mod config;
pub mod error;
pub mod files;
pub mod path;
pub mod pool;
pub mod request;
pub mod response;
pub mod route;
pub mod text;

pub use config::Config;
pub use request::Request;
pub use response::Response;
