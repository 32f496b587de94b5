//! Generation lineage control: the data model, storage layout and the
//! computations behind each `glctl` command, with their contracts.

pub mod error;
pub mod text;
pub mod time;
pub mod models;
pub mod order;
pub mod storage;
pub mod commands;
pub mod config;

pub use error::{CliError, CliResult};
