pub mod app_commands;
pub mod buffer;
pub mod bytes;
pub mod command;
pub mod command_tables;
pub mod code_edit;
pub mod candidates;
pub mod chars;
pub mod commands;
pub mod config;
pub mod confirm;
pub mod content_search;
pub mod diagram;
pub mod diagram_state;
pub mod display_line;
pub mod display_map;
pub mod document;
pub mod editing;
pub mod ex;
pub mod fs;
pub mod graph;
pub mod history_text;
pub mod keymap;
pub mod line_style;
pub mod lines;
pub mod normal_edits;
pub mod number;
pub mod outline;
pub mod palette;
pub mod ranking;
pub mod resource;
pub mod text;
pub mod undo;
pub mod utf16;
pub mod vim;
