//! Verified core of the Rivett image viewer.

pub mod text;
pub mod paths;
pub mod formats;
pub mod order;
pub mod listing;
pub mod rotation;
pub mod tiff;
pub mod prompt;
pub mod meta;
pub mod camera;
pub mod summary;
pub mod purge;
pub mod health;
pub mod records;
pub mod consolidate;
pub mod dng;
pub mod jpegedit;
pub mod controls;
pub mod lru;
pub mod tiles;
pub mod textures;
pub mod carry;
