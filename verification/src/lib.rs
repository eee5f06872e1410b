//! Core of a personal metric tracker: a time-series store keyed by series
//! name, and a modal list-selector state machine. The store owns series
//! (unique names, store-assigned ids) and their measurements (run numbers
//! starting at 1 and strictly increasing, timestamps stamped at append).
//! All persistence and terminal I/O live outside this crate; the logic here
//! works on plain values and is verified.

pub mod bulk;
pub mod data;
pub mod menu;
pub mod order;

use vstd::prelude::*;

verus! {

/// Error taxonomy of the tracker core.
///
/// `NotFound`: a series was required by name and does not exist.
/// `ConstraintError`: a series name would collide with an existing one.
/// `ParseError`: malformed numeric input (raised by the unverified input
/// layer when a value fails to parse).
/// `IOError`: terminal or filesystem fault (unverified layers only).
/// `StoreFault`: unexpected storage-engine failure (unverified layers only).
#[derive(Clone, Copy, Debug, PartialEq, Eq, Structural)]
pub enum Error {
    NotFound,
    ConstraintError,
    ParseError,
    IOError,
    StoreFault,
}

} // verus!
