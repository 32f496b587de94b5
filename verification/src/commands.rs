//! The computations behind each command; reading and writing the store,
//! printing and the network stay with the caller.

pub mod fsck;
pub mod lineage;
pub mod graph;
pub mod list;
pub mod status;
pub mod push;
pub mod login;
pub mod auth;
pub mod new;

pub mod init;
pub mod show;
