//! The logic of `cust`, a Cargo-style build system for C, as a verified library.
pub mod build;
pub mod build_graph;
pub mod clang;
pub mod cli;
pub mod cmake_emit;
pub mod diag_rewrite;
pub mod generate;
pub mod graph;
pub mod laws;
pub mod line_map;
pub mod lock;
pub mod manifest;
pub mod mod_scanner;
pub mod modules;
pub mod new;
pub mod order;
pub mod parts;
pub mod paths;
pub mod plugin;
pub mod plugin_build;
pub mod profile;
pub mod rescan;
pub mod schedule;
pub mod stamp;
pub mod target_layout;
pub mod test_discovery;
pub mod test_runner;
pub mod test_scanner;
pub mod text;
pub mod workspace;
pub mod written;
