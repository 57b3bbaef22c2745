use codercar::frame::{Controller, MalformedFrame};
use codercar::translate::{translate, translate_frames, DriveCommand};

fn frame(axes: &[&str]) -> Controller {
    Controller {
        id: String::from("usb game controller"),
        axes: axes.iter().map(|a| String::from(*a)).collect(),
        buttons: vec![false, true],
    }
}

#[test]
fn throttle_forward() {
    assert_eq!(
        translate(&String::from("0.00"), &String::from("-1.00")),
        Some(DriveCommand::Forward)
    );
}

#[test]
fn throttle_backward() {
    assert_eq!(
        translate(&String::from("0.00"), &String::from("1.00")),
        Some(DriveCommand::Backward)
    );
}

#[test]
fn steer_left() {
    assert_eq!(
        translate(&String::from("-1.00"), &String::from("0.00")),
        Some(DriveCommand::TurnLeft)
    );
}

#[test]
fn steer_right() {
    assert_eq!(
        translate(&String::from("1.00"), &String::from("0.00")),
        Some(DriveCommand::TurnRight)
    );
}

#[test]
fn neutral_stops() {
    assert_eq!(
        translate(&String::from("0.00"), &String::from("0.00")),
        Some(DriveCommand::Stop)
    );
}

#[test]
fn intermediate_value_gives_no_command() {
    assert_eq!(translate(&String::from("0.37"), &String::from("0.00")), None);
}

#[test]
fn non_canonical_formatting_gives_no_command() {
    assert_eq!(translate(&String::from("-1"), &String::from("0.00")), None);
    assert_eq!(translate(&String::from("0.0"), &String::from("1.0")), None);
}

#[test]
fn throttle_has_priority_over_steer() {
    assert_eq!(
        translate(&String::from("-1.00"), &String::from("-1.00")),
        Some(DriveCommand::Forward)
    );
    assert_eq!(
        translate(&String::from("1.00"), &String::from("1.00")),
        Some(DriveCommand::Backward)
    );
}

#[test]
fn first_frame_is_authoritative() {
    let frames = vec![frame(&["0.00", "-1.00"]), frame(&["1.00", "1.00"])];
    assert_eq!(translate_frames(&frames), Ok(Some(DriveCommand::Forward)));
}

#[test]
fn empty_payload_is_malformed() {
    let frames: Vec<Controller> = Vec::new();
    assert_eq!(translate_frames(&frames), Err(MalformedFrame::EmptyPayload));
}

#[test]
fn single_axis_is_malformed() {
    let frames = vec![frame(&["-1.00"])];
    assert_eq!(translate_frames(&frames), Err(MalformedFrame::MissingAxes));
}

#[test]
fn two_axes_suffice() {
    let frames = vec![frame(&["-1.00", "0.00"])];
    assert_eq!(translate_frames(&frames), Ok(Some(DriveCommand::TurnLeft)));
    let frames = vec![frame(&["0.37", "0.00"])];
    assert_eq!(translate_frames(&frames), Ok(None));
}
