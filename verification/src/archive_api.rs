//! Packing and unpacking archives, watching directories, and file icons.

pub mod icon;
pub mod pack;
pub mod unpack;
pub mod watch;
