use codercar::motion::{
    apply_action, bcm_pin, MotionController, PinAction, PinBank, PinLevel,
};
use codercar::translate::DriveCommand;

const ALL_COMMANDS: [DriveCommand; 5] = [
    DriveCommand::Stop,
    DriveCommand::Forward,
    DriveCommand::Backward,
    DriveCommand::TurnLeft,
    DriveCommand::TurnRight,
];

fn no_opposing(b: &PinBank) -> bool {
    !(b.a_forward && b.a_backward)
        && !(b.b_forward && b.b_backward)
        && !(b.c_forward && b.c_backward)
        && !(b.d_forward && b.d_backward)
}

fn high_bcm_pins(plan: &[PinAction]) -> Vec<u8> {
    plan.iter()
        .filter(|a| a.level == PinLevel::High)
        .map(|a| bcm_pin(a.pin))
        .collect()
}

#[test]
fn starts_stopped() {
    let ctl = MotionController::new();
    assert_eq!(ctl.last_command(), DriveCommand::Stop);
}

#[test]
fn issue_updates_actuator_state() {
    let mut ctl = MotionController::new();
    ctl.issue(DriveCommand::TurnLeft);
    assert_eq!(ctl.last_command(), DriveCommand::TurnLeft);
    ctl.issue(DriveCommand::Stop);
    assert_eq!(ctl.last_command(), DriveCommand::Stop);
}

#[test]
fn never_both_directions_high() {
    // Replay an arbitrary command history action by action: after every
    // single pin write, no channel may drive forward and backward at once.
    let history = [
        DriveCommand::Forward,
        DriveCommand::Forward,
        DriveCommand::TurnLeft,
        DriveCommand::Backward,
        DriveCommand::TurnRight,
        DriveCommand::Stop,
        DriveCommand::Backward,
    ];
    let mut ctl = MotionController::new();
    let mut bank = PinBank {
        a_forward: false,
        a_backward: false,
        b_forward: false,
        b_backward: false,
        c_forward: false,
        c_backward: false,
        d_forward: false,
        d_backward: false,
    };
    for cmd in history {
        let plan = ctl.issue(cmd);
        for action in plan {
            bank = apply_action(bank, action);
            assert!(no_opposing(&bank));
        }
    }
}

#[test]
fn reset_completes_before_assertion() {
    for cmd in ALL_COMMANDS {
        let mut ctl = MotionController::new();
        let plan = ctl.issue(cmd);
        // The first eight actions drive all eight distinct pins low.
        let mut reset_pins: Vec<u8> = plan[..8].iter().map(|a| bcm_pin(a.pin)).collect();
        assert!(plan[..8].iter().all(|a| a.level == PinLevel::Low));
        reset_pins.sort();
        reset_pins.dedup();
        assert_eq!(reset_pins.len(), 8);
        // Every action after them asserts high: no low write follows a high.
        assert!(plan[8..].iter().all(|a| a.level == PinLevel::High));
    }
}

#[test]
fn forward_asserts_all_forward_pins() {
    let mut ctl = MotionController::new();
    let plan = ctl.issue(DriveCommand::Forward);
    assert_eq!(high_bcm_pins(&plan), vec![21, 16, 19, 6]);
}

#[test]
fn backward_asserts_all_backward_pins() {
    let mut ctl = MotionController::new();
    let plan = ctl.issue(DriveCommand::Backward);
    assert_eq!(high_bcm_pins(&plan), vec![12, 20, 26, 13]);
}

#[test]
fn turn_left_asserts_mixed_pins() {
    let mut ctl = MotionController::new();
    let plan = ctl.issue(DriveCommand::TurnLeft);
    assert_eq!(high_bcm_pins(&plan), vec![12, 16, 26, 6]);
}

#[test]
fn turn_right_asserts_mixed_pins() {
    let mut ctl = MotionController::new();
    let plan = ctl.issue(DriveCommand::TurnRight);
    assert_eq!(high_bcm_pins(&plan), vec![21, 20, 19, 13]);
}

#[test]
fn stop_asserts_nothing() {
    let mut ctl = MotionController::new();
    let plan = ctl.issue(DriveCommand::Stop);
    assert_eq!(plan.len(), 8);
    assert!(plan.iter().all(|a| a.level == PinLevel::Low));
}

#[test]
fn repeated_command_replays_full_sequence() {
    let mut ctl = MotionController::new();
    let first = ctl.issue(DriveCommand::Forward);
    let second = ctl.issue(DriveCommand::Forward);
    assert_eq!(first, second);
    assert_eq!(second.len(), 12);
    assert!(second[..8].iter().all(|a| a.level == PinLevel::Low));
    assert!(second[8..].iter().all(|a| a.level == PinLevel::High));
}

#[test]
fn bcm_numbers_are_the_platform_header() {
    let mut ctl = MotionController::new();
    let plan = ctl.issue(DriveCommand::Stop);
    let reset: Vec<u8> = plan.iter().map(|a| bcm_pin(a.pin)).collect();
    assert_eq!(reset, vec![21, 12, 16, 20, 19, 26, 6, 13]);
}
