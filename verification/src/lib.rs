//! Verified core of the Pastoid clipboard manager: the clipboard history,
//! its truncation and ordering rules, settings, and the small decisions that
//! the desktop shell acts upon.

pub mod models;
pub mod storage;
pub mod repository;
pub mod text;
pub mod shortcut;
pub mod tray;
pub mod clipboard;
pub mod paste;
