//! What the operations promise, over their arguments and results.
//!
//! Each law takes the result of a call as `call_ensures` knows it and says what
//! holds of it, or how the results of several calls relate.
pub mod build_file;
pub mod build_views;
pub mod commands;
pub mod directives;
pub mod found_tests;
pub mod generated;
pub mod layout;
pub mod manifests;
pub mod member_commands;
pub mod messages;
pub mod module_trees;
pub mod orders;
pub mod packages;
pub mod profiles;
pub mod refusals;
pub mod reports;
pub mod runner;
pub mod sources;
pub mod texts;
pub mod tools;
pub mod units;
pub mod words;
pub mod workspaces;
