//! Verified core of the tiling window manager: the container tree, its
//! stack and workspace commands, window drops and session persistence.

pub mod command;
pub mod config;
pub mod drop;
pub mod container;
pub mod error;
pub mod events;
pub mod focus_workspace;
pub mod laws_choice;
pub mod laws_container;
pub mod laws_persistence;
pub mod laws_workspace;
pub mod model;
pub mod move_workspace;
pub mod persistence;
pub mod query;
pub mod resize;
pub mod seqs;
pub mod sort_workspaces;
pub mod session;
pub mod state;
pub mod text;
pub mod tree;
pub mod workspace;
