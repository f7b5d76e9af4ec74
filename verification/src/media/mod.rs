//! The canonical video media domain: rational time, component planes,
//! colour and picture interpretation, epochs and pictures.

pub mod time;
pub mod layout;
pub mod color;
pub mod meta;
pub mod plane;
pub mod epoch;
pub mod picture;
pub mod procedural;
pub mod ingest;
pub mod encode;
pub mod wire;
pub mod gen;
pub mod global;
pub mod bridge;
