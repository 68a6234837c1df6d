//! Sample-accurate audio mixing decisions and the selection of audible clips.
//!
//! The library holds the integer side of the mixer: which clips of a
//! sequence are audible, which items sound at a given timeline frame, with
//! which fade ratios, and how an interleaved stereo buffer is filled frame by
//! frame. Sample arithmetic in floating point is left to the caller.
use vstd::prelude::*;

pub mod items;
pub mod mixer;

verus! {

} // verus!
