pub mod commands;
pub mod editor;
pub mod filesystem_entry;
pub mod platform;
pub mod session;
pub mod text;
