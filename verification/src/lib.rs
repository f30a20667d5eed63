//! Editing logic of a modal text editor: the line model of a text, grapheme
//! boundaries, selections, cursor movements, text objects, the state kept by
//! views, jump lists, keymaps and registers, what typed commands do with
//! their arguments, and the tables of the documentation and health report.

pub mod text;
pub mod unicode;
pub mod chars;
pub mod graphemes;
pub mod selection;
pub mod movement;
pub mod textobject;
pub mod position;
pub mod rule;
pub mod graphics;
pub mod buffer;
pub mod jump;
pub mod jump_list;
pub mod gutter;
pub mod buffer_view;
pub mod command_multiplier;
pub mod register;
pub mod ts_feature;
pub mod paths;
pub mod config;
pub mod toml_merge;
pub mod diff;
pub mod git;
pub mod debug;
pub mod editor;
pub mod keymap;
pub mod strings;
pub mod command;
pub mod typed;
pub mod lang_support;
pub mod health;
pub mod lang_config;
