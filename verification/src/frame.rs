use vstd::prelude::*;

verus! {

/// One snapshot of a gamepad's state as carried on the wire: an identity
/// string, the axis samples as decimal strings, and the button states.
///
/// Axis samples are decimal strings; translation needs at least the steer
/// axis at position 0 and the throttle axis at position 1.
pub struct Controller {
    pub id: String,
    pub axes: Vec<String>,
    pub buttons: Vec<bool>,
}

impl Controller {
    /// A frame can be translated only when it carries both the steer axis
    /// (position 0) and the throttle axis (position 1).
    pub open spec fn has_control_axes(&self) -> bool {
        self.axes@.len() >= 2
    }
}

/// Why an inbound payload, though it decoded, cannot drive the translator:
/// the payload held no frame at all, or the authoritative first frame lacks
/// the two control axes. Such a payload is dropped and the connection stays
/// active.
#[derive(Clone, Copy, PartialEq, Eq, Structural, Debug)]
pub enum MalformedFrame {
    EmptyPayload,
    MissingAxes,
}

} // verus!
