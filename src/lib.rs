//! Capture, transport and layout of snapshots of a pointer-linked heap graph.
//!
//! * [`data`]: the node model and its plain-text rendering.
//! * [`walk`]: the graph walker, as a state machine driven by a host inspector.
//! * [`net`]: length-prefixed framing of encoded snapshots on a byte stream.
//! * [`layout`]: positions for a node-and-edge diagram of one snapshot.
use vstd::prelude::*;

pub mod data;
pub mod layout;
pub mod net;
pub mod text;
pub mod walk;

verus! {

} // verus!
