//! Small supporting items: wall-clock timing of a call, and the plain data
//! shapes returned by the filesystem and image collaborators (which do their
//! reading and decoding outside this library and hand the results over as
//! values of these types).
use vstd::prelude::*;

verus! {

use std::time::Duration;
use std::time::Instant;

#[verifier::external_type_specification]
#[verifier::external_body]
pub struct ExInstant(Instant);

/// Relies on `Instant::now`: a reading of the process's monotonic clock.
#[verifier::external_body]
fn instant_now() -> Instant {
    Instant::now()
}

/// Relies on `Instant::elapsed`: the time passed since the reading was taken.
#[verifier::external_body]
fn instant_elapsed(start: &Instant) -> Duration {
    start.elapsed()
}

/// Run `f` once and return how long the call took on the process clock. The
/// reading depends on the machine and the moment, so nothing more is promised
/// of it.
pub fn time<F, K>(f: F) -> Duration where F: FnOnce() -> K
    requires
        f.requires(()),
{
    let start = instant_now();
    f();
    instant_elapsed(&start)
}

/// A directory tree as the filesystem collaborator reports it: a node per
/// directory with its entries as children, a leaf per other path.
#[derive(Debug)]
pub enum FileTree {
    Unknown,
    Node { path: String, children: Vec<FileTree> },
    Leaf { path: String },
}

/// A decoded image as the image collaborator hands it over: its pixel
/// dimensions and the raw byte buffer.
pub struct ImageRGBA8 {
    pub w: u32,
    pub h: u32,
    pub data: Vec<u8>,
}

} // verus!
