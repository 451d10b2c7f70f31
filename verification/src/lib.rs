pub mod models;
pub mod patch;
pub mod text;
pub mod word_diff;
pub mod undo;
pub mod config;
pub mod graph;
pub mod repo;
pub mod workspace;
pub mod changes;
pub mod syntax;
pub mod views;
pub mod diff_view;
pub mod blame;
pub mod commit_object;
pub mod refresh;
pub mod dialogs;
