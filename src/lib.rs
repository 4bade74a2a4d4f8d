//! Runtime support for a SQL-driven incremental computation engine: the SQL
//! value functions (arrays, casts, strings), the configuration and schema
//! models, worker layouts and the decisions of the circuit controller, an
//! in-memory storage backend, the directory lock, and the decisions of the
//! developer command line.

pub mod array;
pub mod casts;
pub mod cli;
pub mod config;
pub mod control;
pub mod dirlock;
pub mod json;
pub mod layout;
pub mod memory;
pub mod schema;
pub mod string;
pub mod values;
