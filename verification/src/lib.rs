//! A verified core for a teleoperation bridge: remote peers exchange gamepad
//! frames over a relay hub while the first frame of each inbound payload is
//! translated into a drive command for a four-channel motor platform.
//!
//! The library holds the logic worth proving: the frame-to-command
//! translator, the motion-control state machine with its reset-before-assert
//! pin discipline, the peer registry with broadcast-except-self, and the
//! per-connection lifecycle. Network and hardware access stay outside; the
//! library hands them plain values and exact contracts.

pub mod frame;
pub mod motion;
pub mod registry;
pub mod session;
pub mod translate;
