//! Foreign ingest bridge: the parsers and canonicalizers that turn a decoded
//! media stream into canonical planes. Running the external decoder is the
//! application's concern; everything here is a function on bytes.

pub mod crc;
pub mod canonicalize;
pub mod nut;
pub mod text;
pub mod framehash;
pub mod probe;
pub mod import;
