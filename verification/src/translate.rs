use vstd::prelude::*;

use crate::frame::Controller;
use crate::frame::MalformedFrame;

verus! {

/// The closed set of drive commands the motor platform accepts.
#[derive(Clone, Copy, PartialEq, Eq, Structural, Debug)]
pub enum DriveCommand {
    Stop,
    Forward,
    Backward,
    TurnLeft,
    TurnRight,
}

/// The translation table from the two control axes to a drive command.
///
/// The source device quantizes each axis to the exact detent strings
/// "-1.00", "0.00" and "1.00", so axes are compared by string equality, not
/// numerically. Throttle (axis 1) is evaluated before steer (axis 0);
/// steer-left before steer-right; both axes at "0.00" means stop; any other
/// combination yields no command, leaving the actuator state unchanged.
pub open spec fn spec_translate(steer: Seq<char>, throttle: Seq<char>) -> Option<DriveCommand> {
    if throttle == "1.00"@ {
        Some(DriveCommand::Backward)
    } else if throttle == "-1.00"@ {
        Some(DriveCommand::Forward)
    } else if steer == "-1.00"@ {
        Some(DriveCommand::TurnLeft)
    } else if steer == "1.00"@ {
        Some(DriveCommand::TurnRight)
    } else if steer == "0.00"@ && throttle == "0.00"@ {
        Some(DriveCommand::Stop)
    } else {
        None
    }
}

/// Whether an axis sample equals one of the canonical detent strings.
fn axis_is(axis: &String, detent: &str) -> (r: bool)
    ensures
        r == (axis@ == detent@),
{
    *axis == detent.to_owned()
}

/// Maps the steer and throttle axis samples to a drive command, exactly as
/// the translation table says.
pub fn translate(steer: &String, throttle: &String) -> (r: Option<DriveCommand>)
    ensures
        r == spec_translate(steer@, throttle@),
{
    if axis_is(throttle, "1.00") {
        Some(DriveCommand::Backward)
    } else if axis_is(throttle, "-1.00") {
        Some(DriveCommand::Forward)
    } else if axis_is(steer, "-1.00") {
        Some(DriveCommand::TurnLeft)
    } else if axis_is(steer, "1.00") {
        Some(DriveCommand::TurnRight)
    } else if axis_is(steer, "0.00") && axis_is(throttle, "0.00") {
        Some(DriveCommand::Stop)
    } else {
        None
    }
}

/// Translates a decoded inbound payload. Frame 0 is the authoritative
/// control source; frames beyond it are never translated to motion. An empty
/// payload, or a first frame without both control axes, is malformed.
pub fn translate_frames(frames: &Vec<Controller>) -> (r: Result<
    Option<DriveCommand>,
    MalformedFrame,
>)
    ensures
        frames@.len() == 0 ==> r == Err::<Option<DriveCommand>, MalformedFrame>(
            MalformedFrame::EmptyPayload,
        ),
        frames@.len() > 0 && !frames@[0].has_control_axes() ==> r == Err::<
            Option<DriveCommand>,
            MalformedFrame,
        >(MalformedFrame::MissingAxes),
        frames@.len() > 0 && frames@[0].has_control_axes() ==> r == Ok::<
            Option<DriveCommand>,
            MalformedFrame,
        >(spec_translate(frames@[0].axes@[0]@, frames@[0].axes@[1]@)),
{
    if frames.len() == 0 {
        Err(MalformedFrame::EmptyPayload)
    } else {
        let first = &frames[0];
        if first.axes.len() < 2 {
            Err(MalformedFrame::MissingAxes)
        } else {
            Ok(translate(&first.axes[0], &first.axes[1]))
        }
    }
}

} // verus!
