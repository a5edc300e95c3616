pub mod codec;
pub mod config;
pub mod error;
pub mod git;
pub mod project;
pub mod select;
pub mod storage;
pub mod strutil;
pub mod time;

pub use error::SpmError;
