pub mod text;
pub mod path;
pub mod items;
pub mod ignore_rules;
pub mod dir;
pub mod scroll;
pub mod refresh;
pub mod keys;
pub mod queue;
pub mod input_box;
pub mod prompt;
pub mod style;
pub mod config;
pub mod component;
pub mod logging;
pub mod pending;
pub mod popup;
pub mod marks;
pub mod fuzzy;
pub mod files;
pub mod preview;
pub mod listing;
pub mod tree;
pub mod app;
pub mod file_cmd;
