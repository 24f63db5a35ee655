pub mod data;
pub mod editor;
pub mod key;
pub mod md;
pub mod text;
pub mod app;
pub mod clipboard;
pub mod ui;
