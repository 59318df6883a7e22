//! Command line: what the arguments ask for, and how a connection is attempted.

pub mod args;
pub mod connect;
pub mod usage;

pub use args::{parse_args, parse_password_flag, parse_tls_policy, ArgError, Command, TlsPolicy};
pub use connect::{first_attempt, retry, Attempt, MAX_CONCURRENT_CONNS};
