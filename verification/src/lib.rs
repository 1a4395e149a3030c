//! Client-side predictive-input subsystem for a tick-based networked
//! simulation.
//!
//! Locally captured control inputs are buffered per controlled entity on a
//! fixed simulation clock, packaged into redundant outbound messages that
//! tolerate packet loss, reconciled from inbound messages for remotely
//! controlled entities, and re-indexed when the shared clock snaps to a new
//! value.

use vstd::prelude::*;

pub mod action;
pub mod buffer_laws;
pub mod codec;
pub mod config;
pub mod entity_map;
pub mod input_buffer;
pub mod message;
pub mod reconcile;
pub mod redundancy;
pub mod resync;

verus! {

/// Counter of fixed-duration simulation steps. Monotonic under normal
/// advance; it may jump discontinuously only through a tick-snap event.
pub type Tick = i64;

} // verus!
