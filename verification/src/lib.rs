pub mod app;
pub mod bytes;
pub mod case;
pub mod clipboard;
pub mod comments;
pub mod deep;
pub mod event;
pub mod git;
pub mod keymap;
pub mod laws;
pub mod markdown;
pub mod num;
pub mod start;
pub mod store;
pub mod text;
pub mod ui;
