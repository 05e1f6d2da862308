pub mod actions;
pub mod clipboard;
pub mod config;
pub mod git;
pub mod icons;
pub mod ignore_rules;
pub mod model;
pub mod ops;
pub mod panel;
pub mod strings;
pub mod tree;
pub mod view;
pub mod watcher;
