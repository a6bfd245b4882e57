//! Task and tracker logic of a Markdown vault: dates, tasks, trackers,
//! the parsers of the task syntax and the queries over the vault tree.
pub mod date;
pub mod text;
pub mod config;
pub mod task;
pub mod frequency;
pub mod tracker;
pub mod token;
pub mod parse_frequency;
pub mod vault;
pub mod task_parser;
pub mod file_parser;
pub mod filter;
pub mod manager;
pub mod sorter;
pub mod display;
pub mod rewrite;
pub mod tracker_parser;
pub mod scan;
pub mod tracker_display;
pub mod tracker_blanks;
pub mod keys;
pub mod round_trip;
pub mod style;
pub mod timer;
pub mod settings;
pub mod engine;
pub mod calendar;
pub mod merge;
pub mod explorer;
