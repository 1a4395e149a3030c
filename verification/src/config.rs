//! Recognized configuration options of the input subsystem.

use vstd::prelude::*;

verus! {

/// Options a host configures the input subsystem with:
/// - `redundancy_factor` multiplies the minimum redundancy window, so each
///   message survives the loss of `redundancy_factor - 1` predecessors;
/// - `rebroadcast_inputs` enables reconciling other clients' input messages
///   into local predicted entities;
/// - `lag_compensation` attaches an interpolation-delay value to outbound
///   messages at transmission time;
/// - `input_delay_ticks` offsets the tick a message targets ahead of the
///   current tick, to compensate for network latency.
#[derive(Clone, Copy, Debug, PartialEq, Eq)]
pub struct InputConfig {
    pub redundancy_factor: u16,
    pub rebroadcast_inputs: bool,
    pub lag_compensation: bool,
    pub input_delay_ticks: u16,
}

impl Default for InputConfig {
    /// Defaults to the least setting: the minimum redundancy window and
    /// every optional behaviour off.
    fn default() -> (r: Self)
        ensures
            r.redundancy_factor == 1,
            !r.rebroadcast_inputs,
            !r.lag_compensation,
            r.input_delay_ticks == 0,
    {
        InputConfig {
            redundancy_factor: 1,
            rebroadcast_inputs: false,
            lag_compensation: false,
            input_delay_ticks: 0,
        }
    }
}

} // verus!
