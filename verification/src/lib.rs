//! Management of bare git repositories on a shared host.
//!
//! The crate is organised around these components:
//! - `git_service`: validates repository names and drives the on-disk
//!   lifecycle (create, rename, delete) of bare repositories, with
//!   compensating rollback on partial failure;
//! - `repo_store`: the abstract filesystem/command-executor capability that
//!   the lifecycle manager acts through, together with an in-memory store
//!   used to exercise the lifecycle logic without touching a real disk;
//! - `repo_retrive_service`: read-only introspection of a repository's file
//!   tree by walking the commit/tree/blob object graph;
//! - `ssh_service`: line-oriented editing of an `authorized_keys` file,
//!   expressed as pure text transformations.

pub mod git_objects;
pub mod git_service;
pub mod repo_retrive_service;
pub mod repo_store;
pub mod ssh_service;
pub mod text;
