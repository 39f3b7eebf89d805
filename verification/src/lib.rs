//! The decisions a multitenant Postgres connection pooler makes, as verified
//! functions of plain values: what a statement does, where it may run, what a
//! client is asked for, and what the server still owes.
pub mod text;
pub mod sql;
pub mod route;
pub mod classify;
pub mod hints;
pub mod replica;
pub mod router;
pub mod error;
pub mod proto;
pub mod flush;
pub mod state;
pub mod sequence;
pub mod auth;
pub mod backend;
pub mod connect;
pub mod cancel;
pub mod probe;
pub mod shell;
pub mod encode;
pub mod frontend;
pub mod startup;
pub mod testkit;
pub mod tls;
