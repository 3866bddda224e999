//! Verified core of a push-button MIDI controller whose outbound messages are
//! reconfigurable over a network control plane.
//!
//! The library holds the configuration store shared by the input poller and
//! the control plane, the per-line debounce state machine that turns noisy
//! button levels into single dispatches, and the update logic that applies a
//! decoded control-plane request to the store. Hardware access, the HTTP
//! surface and process wiring live outside the library and hand it plain
//! values.

pub mod action;
pub mod control;
pub mod poller;
pub mod store;
