//! VOLE: a procedural video representation with an exact, integer-only
//! media domain, a byte rANS entropy floor, and typed hostile-safe parsers.

pub mod arith;
pub mod error;
pub mod integrity;
pub mod limits;
pub mod media;
pub mod object;
pub mod pixel;
pub mod rans;
pub mod state;
pub mod store;
pub mod time;
pub mod trajectory;

use vstd::prelude::*;

verus! {

} // verus!
