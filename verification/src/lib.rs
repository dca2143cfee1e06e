//! Verified core of a build orchestrator for stacks of repositories.

pub mod cache;
pub mod cargo_install;
pub mod check_laws;
pub mod checks;
pub mod cli;
pub mod cli_progress;
pub mod clock;
pub mod clone_laws;
pub mod closure_laws;
pub mod closure_walk;
pub mod command;
pub mod digest;
pub mod docker;
pub mod docker_laws;
pub mod execution;
pub mod factory;
pub mod factory_laws;
pub mod federation;
pub mod federation_laws;
pub mod git_clone;
pub mod graph;
pub mod human;
pub mod idmap;
pub mod install_laws;
pub mod manifest;
pub mod manifest_laws;
pub mod metadata;
pub mod metadata_laws;
pub mod neo4j;
pub mod orchestrator;
pub mod order;
pub mod path_laws;
pub mod paths;
pub mod picking;
pub mod plan;
pub mod plan_laws;
pub mod progress;
pub mod report_laws;
pub mod rows;
pub mod run_laws;
pub mod source;
pub mod source_closure;
pub mod source_hash;
pub mod source_hash_laws;
pub mod status;
pub mod steps;
pub mod steps_laws;
pub mod sync_laws;
pub mod text;
pub mod text_laws;
pub mod tree_laws;
pub mod types;
