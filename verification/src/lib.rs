//! Private, version-controlled context for Git projects.
//!
//! A subcontext is a context repo that is attached to a Git project. The library
//! decides what is to be done, and has it done through a
//! [`Backend`](backend::Backend).

pub mod agent;
pub mod backend;
pub mod board;
pub mod board_check;
pub mod cli;
pub mod clone;
pub mod docs;
pub mod dolt;
pub mod environment;
pub mod excludes;
pub mod failure;
pub mod frontmatter;
pub mod git;
pub mod global;
pub mod hook;
pub mod horizon;
pub mod install;
pub mod json;
pub mod laws;
pub mod lineage;
pub mod mcp;
pub mod mcp_config;
pub mod namespace;
pub mod normal;
pub mod number;
pub mod objects;
pub mod order;
pub mod overlay;
pub mod paths;
pub mod project;
pub mod propagate;
pub mod reach;
pub mod scripted;
pub mod settings;
pub mod skills;
pub mod startup;
pub mod statement;
pub mod status;
pub mod submodule;
pub mod text;
pub mod trace;
pub mod tree;
pub mod uninstall;
pub mod world;
