//! The logic of a terminal multiplexer: panes in a tiling tree, tabs, popups, what is drawn, and
//! how keys, the mouse and the shells of the panes are dealt with.

pub mod app;
pub mod clipboard;
pub mod color;
pub mod config;
pub mod confirm;
pub mod draw;
pub mod event;
pub mod geometry;
pub mod grid;
pub mod history;
pub mod input;
pub mod input_line;
pub mod keys;
pub mod layout;
pub mod mention;
pub mod menu;
pub mod osc;
pub mod palette;
pub mod pty;
pub mod rank;
pub mod ratio;
pub mod rename;
pub mod render;
pub mod session;
pub mod shell;
pub mod snapshot;
pub mod suggest;
pub mod term;
pub mod terminal_theme;
pub mod text;
pub mod xtgettcap;
