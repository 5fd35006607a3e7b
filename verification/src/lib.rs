pub mod archive;
pub mod bytebuffer;
pub mod compression;
pub mod errors;
pub mod filesystem;
pub mod index;
pub mod str;
pub mod versionlist;
