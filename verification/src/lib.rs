//! The editing rules of a terminal media editor.

pub mod apply;
pub mod audio;
pub mod command;
pub mod conflicts;
pub mod container;
pub mod convert;
pub mod disposition;
pub mod duplicates;
pub mod files;
pub mod framecache;
pub mod log;
pub mod names;
pub mod order;
pub mod path;
pub mod plan;
pub mod prepare;
pub mod probe;
pub mod progress;
pub mod publication;
pub mod reports;
pub mod result;
pub mod session;
pub mod sets;
pub mod sources;
pub mod subtitle;
pub mod text;
pub mod tools;
pub mod transaction;
pub mod transcode;
pub mod validate;
pub mod video;
