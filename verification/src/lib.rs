//! A menu launcher's logic: the configuration model, the rules for loading
//! and merging configuration files, the entries detected from project files,
//! and the navigation, search and line-editing state of the interactive menu.

pub mod order;
pub mod text;
pub mod cli;
pub mod config;
pub mod exec;
pub mod launchers;
pub mod menu;
pub mod parallel;
pub mod paths;
pub mod shell_init;
pub mod ui;
