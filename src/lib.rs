//! Manage many local clones of remote git repositories from one registry.
//!
//! The library holds the registry of tracked clones with its uniqueness rules,
//! the choice of a credential strategy for a transport challenge, and the
//! bookkeeping of batch commands run over many repositories.
pub mod batch;
pub mod cfg;
pub mod cli;
pub mod git;
pub mod path;
