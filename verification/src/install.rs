//! Installing and updating plugins.

pub mod archive;
pub mod download;
pub mod lock;
pub mod package;
pub mod place;
pub mod preview;
pub mod redact;
pub mod source;
pub mod source_laws;
pub mod staging;
pub mod update;
pub mod version;
