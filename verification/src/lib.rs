//! A typed identifier library: 64-bit handles tagged at compile time with the
//! entity kind they refer to, together with a reversible base-62 text codec for
//! rendering them, a short human-facing code generator, and small utilities for
//! keyed collections and collaborator data.
use vstd::prelude::*;

pub mod codec;
pub mod code;
pub mod id;
pub mod sets;
pub mod util;

verus! {

} // verus!
