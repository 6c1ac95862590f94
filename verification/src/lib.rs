//! Plugin host core of a desktop launcher: plugin sources, archives, market
//! index, sessions, permissions and the data that travels between plugin pages
//! and the host.

pub mod archive_api;
pub mod audio;
pub mod audit;
pub mod camera;
pub mod capture;
pub mod codec;
pub mod commands;
pub mod context;
pub mod display;
pub mod entry;
pub mod exec;
pub mod fs_api;
pub mod hotkey;
pub mod image_api;
pub mod indicator;
pub mod input_api;
pub mod install;
pub mod json;
pub mod main_push;
pub mod manifest;
pub mod market;
pub mod order;
pub mod page;
pub mod path;
pub mod picture;
pub mod session;
pub mod table;
pub mod text;
pub mod utf16;
pub mod utf8;
pub mod zip_reader;
