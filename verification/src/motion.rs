use vstd::prelude::*;

use crate::translate::DriveCommand;

verus! {

/// One of the four physical motor channels of the platform.
#[derive(Clone, Copy, PartialEq, Eq, Structural, Debug)]
pub enum MotorChannel {
    A,
    B,
    C,
    D,
}

/// Which line of a channel's pin pair a pin is: the forward driver or the
/// backward driver.
#[derive(Clone, Copy, PartialEq, Eq, Structural, Debug)]
pub enum PinRole {
    Forward,
    Backward,
}

/// A logical output pin: one side of one channel's driver pair.
#[derive(Clone, Copy, PartialEq, Eq, Structural, Debug)]
pub struct PinId {
    pub channel: MotorChannel,
    pub role: PinRole,
}

/// The level a pin is driven to.
#[derive(Clone, Copy, PartialEq, Eq, Structural, Debug)]
pub enum PinLevel {
    Low,
    High,
}

/// One step of a command plan: drive `pin` to `level`, then hold for the
/// fixed settle delay before the next step.
#[derive(Clone, Copy, PartialEq, Eq, Structural, Debug)]
pub struct PinAction {
    pub pin: PinId,
    pub level: PinLevel,
}

/// The BCM pin number each logical pin maps to on the platform's header.
pub open spec fn spec_bcm_pin(pin: PinId) -> u8 {
    match (pin.channel, pin.role) {
        (MotorChannel::A, PinRole::Forward) => 21,
        (MotorChannel::A, PinRole::Backward) => 12,
        (MotorChannel::B, PinRole::Forward) => 16,
        (MotorChannel::B, PinRole::Backward) => 20,
        (MotorChannel::C, PinRole::Forward) => 19,
        (MotorChannel::C, PinRole::Backward) => 26,
        (MotorChannel::D, PinRole::Forward) => 6,
        (MotorChannel::D, PinRole::Backward) => 13,
    }
}

/// Returns the BCM pin number of a logical pin.
pub fn bcm_pin(pin: PinId) -> (n: u8)
    ensures
        n == spec_bcm_pin(pin),
{
    match (pin.channel, pin.role) {
        (MotorChannel::A, PinRole::Forward) => 21,
        (MotorChannel::A, PinRole::Backward) => 12,
        (MotorChannel::B, PinRole::Forward) => 16,
        (MotorChannel::B, PinRole::Backward) => 20,
        (MotorChannel::C, PinRole::Forward) => 19,
        (MotorChannel::C, PinRole::Backward) => 26,
        (MotorChannel::D, PinRole::Forward) => 6,
        (MotorChannel::D, PinRole::Backward) => 13,
    }
}

/// The last level each of the eight output pins was driven to. `true` means
/// the pin is high.
#[derive(Clone, Copy, PartialEq, Eq, Structural, Debug)]
pub struct PinBank {
    pub a_forward: bool,
    pub a_backward: bool,
    pub b_forward: bool,
    pub b_backward: bool,
    pub c_forward: bool,
    pub c_backward: bool,
    pub d_forward: bool,
    pub d_backward: bool,
}

/// The bank with every pin low: the state after a completed reset phase, and
/// the state the controller starts from.
pub open spec fn all_low() -> PinBank {
    PinBank {
        a_forward: false,
        a_backward: false,
        b_forward: false,
        b_backward: false,
        c_forward: false,
        c_backward: false,
        d_forward: false,
        d_backward: false,
    }
}

/// The electrical safety condition: no channel has its forward and backward
/// driver energized at the same time.
pub open spec fn no_opposing(b: PinBank) -> bool {
    &&& !(b.a_forward && b.a_backward)
    &&& !(b.b_forward && b.b_backward)
    &&& !(b.c_forward && b.c_backward)
    &&& !(b.d_forward && b.d_backward)
}

/// The bank after one action: the addressed pin takes the action's level,
/// every other pin keeps its level.
pub open spec fn spec_apply_action(b: PinBank, a: PinAction) -> PinBank {
    let v = a.level == PinLevel::High;
    match (a.pin.channel, a.pin.role) {
        (MotorChannel::A, PinRole::Forward) => PinBank { a_forward: v, ..b },
        (MotorChannel::A, PinRole::Backward) => PinBank { a_backward: v, ..b },
        (MotorChannel::B, PinRole::Forward) => PinBank { b_forward: v, ..b },
        (MotorChannel::B, PinRole::Backward) => PinBank { b_backward: v, ..b },
        (MotorChannel::C, PinRole::Forward) => PinBank { c_forward: v, ..b },
        (MotorChannel::C, PinRole::Backward) => PinBank { c_backward: v, ..b },
        (MotorChannel::D, PinRole::Forward) => PinBank { d_forward: v, ..b },
        (MotorChannel::D, PinRole::Backward) => PinBank { d_backward: v, ..b },
    }
}

/// Applies one action to a bank.
pub fn apply_action(b: PinBank, a: PinAction) -> (r: PinBank)
    ensures
        r == spec_apply_action(b, a),
{
    let high = a.level == PinLevel::High;
    let mut r = b;
    match (a.pin.channel, a.pin.role) {
        (MotorChannel::A, PinRole::Forward) => r.a_forward = high,
        (MotorChannel::A, PinRole::Backward) => r.a_backward = high,
        (MotorChannel::B, PinRole::Forward) => r.b_forward = high,
        (MotorChannel::B, PinRole::Backward) => r.b_backward = high,
        (MotorChannel::C, PinRole::Forward) => r.c_forward = high,
        (MotorChannel::C, PinRole::Backward) => r.c_backward = high,
        (MotorChannel::D, PinRole::Forward) => r.d_forward = high,
        (MotorChannel::D, PinRole::Backward) => r.d_backward = high,
    }
    r
}

/// The bank after the first `i` actions of a plan have been driven.
pub open spec fn bank_after(b: PinBank, plan: Seq<PinAction>, i: int) -> PinBank
    decreases i,
{
    if i <= 0 {
        b
    } else {
        spec_apply_action(bank_after(b, plan, i - 1), plan[i - 1])
    }
}

/// A low action on one pin.
pub open spec fn lo(channel: MotorChannel, role: PinRole) -> PinAction {
    PinAction { pin: PinId { channel, role }, level: PinLevel::Low }
}

/// A high action on one pin.
pub open spec fn hi(channel: MotorChannel, role: PinRole) -> PinAction {
    PinAction { pin: PinId { channel, role }, level: PinLevel::High }
}

/// The reset phase of every command: drive all eight pins low, channel by
/// channel, forward line before backward line.
pub open spec fn reset_plan() -> Seq<PinAction> {
    seq![
        lo(MotorChannel::A, PinRole::Forward),
        lo(MotorChannel::A, PinRole::Backward),
        lo(MotorChannel::B, PinRole::Forward),
        lo(MotorChannel::B, PinRole::Backward),
        lo(MotorChannel::C, PinRole::Forward),
        lo(MotorChannel::C, PinRole::Backward),
        lo(MotorChannel::D, PinRole::Forward),
        lo(MotorChannel::D, PinRole::Backward),
    ]
}

/// The assert phase of a command: the pins the command drives high, in
/// channel order. A stop asserts nothing beyond the reset.
pub open spec fn assert_plan(cmd: DriveCommand) -> Seq<PinAction> {
    match cmd {
        DriveCommand::Stop => Seq::empty(),
        DriveCommand::Forward => seq![
            hi(MotorChannel::A, PinRole::Forward),
            hi(MotorChannel::B, PinRole::Forward),
            hi(MotorChannel::C, PinRole::Forward),
            hi(MotorChannel::D, PinRole::Forward),
        ],
        DriveCommand::Backward => seq![
            hi(MotorChannel::A, PinRole::Backward),
            hi(MotorChannel::B, PinRole::Backward),
            hi(MotorChannel::C, PinRole::Backward),
            hi(MotorChannel::D, PinRole::Backward),
        ],
        DriveCommand::TurnLeft => seq![
            hi(MotorChannel::A, PinRole::Backward),
            hi(MotorChannel::B, PinRole::Forward),
            hi(MotorChannel::C, PinRole::Backward),
            hi(MotorChannel::D, PinRole::Forward),
        ],
        DriveCommand::TurnRight => seq![
            hi(MotorChannel::A, PinRole::Forward),
            hi(MotorChannel::B, PinRole::Backward),
            hi(MotorChannel::C, PinRole::Forward),
            hi(MotorChannel::D, PinRole::Backward),
        ],
    }
}

/// The full plan of a command transition: the complete reset phase first,
/// then the command's assertions. The plan depends on the command alone,
/// never on prior state, so a repeated command replays the full sequence.
pub open spec fn command_plan(cmd: DriveCommand) -> Seq<PinAction> {
    reset_plan() + assert_plan(cmd)
}

/// Builds the executable plan of a command, exactly the spec-level plan.
pub fn build_plan(cmd: DriveCommand) -> (plan: Vec<PinAction>)
    ensures
        plan@ == command_plan(cmd),
{
    let mut plan: Vec<PinAction> = Vec::new();
    plan.push(PinAction { pin: PinId { channel: MotorChannel::A, role: PinRole::Forward }, level: PinLevel::Low });
    plan.push(PinAction { pin: PinId { channel: MotorChannel::A, role: PinRole::Backward }, level: PinLevel::Low });
    plan.push(PinAction { pin: PinId { channel: MotorChannel::B, role: PinRole::Forward }, level: PinLevel::Low });
    plan.push(PinAction { pin: PinId { channel: MotorChannel::B, role: PinRole::Backward }, level: PinLevel::Low });
    plan.push(PinAction { pin: PinId { channel: MotorChannel::C, role: PinRole::Forward }, level: PinLevel::Low });
    plan.push(PinAction { pin: PinId { channel: MotorChannel::C, role: PinRole::Backward }, level: PinLevel::Low });
    plan.push(PinAction { pin: PinId { channel: MotorChannel::D, role: PinRole::Forward }, level: PinLevel::Low });
    plan.push(PinAction { pin: PinId { channel: MotorChannel::D, role: PinRole::Backward }, level: PinLevel::Low });
    match cmd {
        DriveCommand::Stop => {},
        DriveCommand::Forward => {
            plan.push(PinAction { pin: PinId { channel: MotorChannel::A, role: PinRole::Forward }, level: PinLevel::High });
            plan.push(PinAction { pin: PinId { channel: MotorChannel::B, role: PinRole::Forward }, level: PinLevel::High });
            plan.push(PinAction { pin: PinId { channel: MotorChannel::C, role: PinRole::Forward }, level: PinLevel::High });
            plan.push(PinAction { pin: PinId { channel: MotorChannel::D, role: PinRole::Forward }, level: PinLevel::High });
        },
        DriveCommand::Backward => {
            plan.push(PinAction { pin: PinId { channel: MotorChannel::A, role: PinRole::Backward }, level: PinLevel::High });
            plan.push(PinAction { pin: PinId { channel: MotorChannel::B, role: PinRole::Backward }, level: PinLevel::High });
            plan.push(PinAction { pin: PinId { channel: MotorChannel::C, role: PinRole::Backward }, level: PinLevel::High });
            plan.push(PinAction { pin: PinId { channel: MotorChannel::D, role: PinRole::Backward }, level: PinLevel::High });
        },
        DriveCommand::TurnLeft => {
            plan.push(PinAction { pin: PinId { channel: MotorChannel::A, role: PinRole::Backward }, level: PinLevel::High });
            plan.push(PinAction { pin: PinId { channel: MotorChannel::B, role: PinRole::Forward }, level: PinLevel::High });
            plan.push(PinAction { pin: PinId { channel: MotorChannel::C, role: PinRole::Backward }, level: PinLevel::High });
            plan.push(PinAction { pin: PinId { channel: MotorChannel::D, role: PinRole::Forward }, level: PinLevel::High });
        },
        DriveCommand::TurnRight => {
            plan.push(PinAction { pin: PinId { channel: MotorChannel::A, role: PinRole::Forward }, level: PinLevel::High });
            plan.push(PinAction { pin: PinId { channel: MotorChannel::B, role: PinRole::Backward }, level: PinLevel::High });
            plan.push(PinAction { pin: PinId { channel: MotorChannel::C, role: PinRole::Forward }, level: PinLevel::High });
            plan.push(PinAction { pin: PinId { channel: MotorChannel::D, role: PinRole::Backward }, level: PinLevel::High });
        },
    }
    proof {
        assert(plan@ =~= command_plan(cmd));
    }
    plan
}

/// Law: a low action never energizes a pin, so it preserves the safety
/// condition whatever pin it addresses.
proof fn lemma_low_preserves_no_opposing(b: PinBank, a: PinAction)
    requires
        no_opposing(b),
        a.level == PinLevel::Low,
    ensures
        no_opposing(spec_apply_action(b, a)),
{
}

/// During the reset phase every step of a command plan keeps the safety
/// condition, because every step only drives a pin low.
proof fn lemma_reset_prefix_safe(b: PinBank, cmd: DriveCommand, i: int)
    requires
        no_opposing(b),
        0 <= i <= reset_plan().len(),
    ensures
        no_opposing(bank_after(b, command_plan(cmd), i)),
    decreases i,
{
    if i > 0 {
        lemma_reset_prefix_safe(b, cmd, i - 1);
        assert(command_plan(cmd)[i - 1] == reset_plan()[i - 1]);
        assert(reset_plan()[i - 1].level == PinLevel::Low);
        lemma_low_preserves_no_opposing(bank_after(b, command_plan(cmd), i - 1), reset_plan()[i - 1]);
    }
}

/// Once the reset phase of a command plan has run, every pin is low, whatever
/// the bank held before.
pub proof fn lemma_reset_completes(b: PinBank, cmd: DriveCommand)
    ensures
        bank_after(b, command_plan(cmd), reset_plan().len() as int) == all_low(),
{
    reveal_with_fuel(bank_after, 9);
    assert(bank_after(b, command_plan(cmd), reset_plan().len() as int) == all_low());
}

/// Law: at no observed instant during a command plan are the forward and
/// backward pin of the same channel high at once. Starting from any bank that
/// satisfies the safety condition, the bank after any prefix of the plan
/// still satisfies it.
pub proof fn lemma_no_opposing_during_plan(b: PinBank, cmd: DriveCommand, i: int)
    requires
        no_opposing(b),
        0 <= i <= command_plan(cmd).len(),
    ensures
        no_opposing(bank_after(b, command_plan(cmd), i)),
{
    if i <= reset_plan().len() {
        lemma_reset_prefix_safe(b, cmd, i);
    } else {
        lemma_reset_completes(b, cmd);
        reveal_with_fuel(bank_after, 5);
        assert(no_opposing(bank_after(b, command_plan(cmd), i)));
    }
}

/// Law: the reset phase completes before any assertion. In every command
/// plan the leading steps each drive a pin low, together they leave every
/// pin of the bank low whatever it held before, and every step after them
/// asserts a pin high.
pub proof fn lemma_reset_before_assert(b: PinBank, cmd: DriveCommand)
    ensures
        command_plan(cmd).len() >= reset_plan().len(),
        forall|k: int|
            0 <= k < reset_plan().len() ==> (#[trigger] command_plan(cmd)[k]).level
                == PinLevel::Low,
        forall|k: int|
            reset_plan().len() <= k < command_plan(cmd).len() ==> (#[trigger] command_plan(
                cmd,
            )[k]).level == PinLevel::High,
        bank_after(b, command_plan(cmd), reset_plan().len() as int) == all_low(),
{
    lemma_reset_completes(b, cmd);
    assert forall|k: int| 0 <= k < reset_plan().len() implies (#[trigger] command_plan(
        cmd,
    )[k]).level == PinLevel::Low by {
        assert(command_plan(cmd)[k] == reset_plan()[k]);
    }
    assert forall|k: int|
        reset_plan().len() <= k < command_plan(cmd).len() implies (#[trigger] command_plan(
        cmd,
    )[k]).level == PinLevel::High by {
        assert(command_plan(cmd)[k] == assert_plan(cmd)[k - reset_plan().len()]);
    }
}

/// The motion controller: the single owner of the eight output pins. It
/// turns each incoming drive command, repeats included, into the full
/// reset-then-assert plan, tracks the level every pin was last driven to,
/// and records the command as the new actuator state.
pub struct MotionController {
    pins: PinBank,
    state: DriveCommand,
}

impl MotionController {
    /// The level each pin was last driven to.
    pub closed spec fn pins(&self) -> PinBank {
        self.pins
    }

    /// The actuator state: the last command applied, initially stop.
    pub closed spec fn state(&self) -> DriveCommand {
        self.state
    }

    /// The controller's invariant: its pins never drive a channel in both
    /// directions at once.
    pub open spec fn wf(&self) -> bool {
        no_opposing(self.pins())
    }

    /// A controller at startup: every pin driven low, actuator state stop.
    pub fn new() -> (c: MotionController)
        ensures
            c.pins() == all_low(),
            c.state() == DriveCommand::Stop,
            c.wf(),
    {
        MotionController {
            pins: PinBank {
                a_forward: false,
                a_backward: false,
                b_forward: false,
                b_backward: false,
                c_forward: false,
                c_backward: false,
                d_forward: false,
                d_backward: false,
            },
            state: DriveCommand::Stop,
        }
    }

    /// The last command applied.
    pub fn last_command(&self) -> (cmd: DriveCommand)
        ensures
            cmd == self.state(),
    {
        self.state
    }

    /// Runs one command transition: returns the full reset-then-assert plan
    /// for the hardware owner to drive, and advances the model of the pins
    /// and the actuator state past the whole plan. The plan is a function of
    /// the command alone — re-issuing the current state's command replays
    /// the full sequence, with no idempotence skip.
    pub fn issue(&mut self, cmd: DriveCommand) -> (plan: Vec<PinAction>)
        ensures
            plan@ == command_plan(cmd),
            final(self).state() == cmd,
            final(self).pins() == bank_after(
                old(self).pins(),
                command_plan(cmd),
                command_plan(cmd).len() as int,
            ),
            final(self).wf(),
    {
        let plan = build_plan(cmd);
        let ghost b0 = self.pins;
        let mut bank = self.pins;
        let mut i: usize = 0;
        while i < plan.len()
            invariant
                i <= plan.len(),
                plan@ == command_plan(cmd),
                bank == bank_after(b0, plan@, i as int),
            decreases plan.len() - i,
        {
            bank = apply_action(bank, plan[i]);
            i += 1;
        }
        self.pins = bank;
        self.state = cmd;
        proof {
            lemma_reset_completes(b0, cmd);
            if command_plan(cmd).len() > reset_plan().len() {
                lemma_plan_end_safe(b0, cmd);
            }
        }
        plan
    }
}

/// The bank a full command plan ends in satisfies the safety condition,
/// whatever bank the plan started from.
proof fn lemma_plan_end_safe(b: PinBank, cmd: DriveCommand)
    ensures
        no_opposing(bank_after(b, command_plan(cmd), command_plan(cmd).len() as int)),
{
    lemma_reset_completes(b, cmd);
    reveal_with_fuel(bank_after, 5);
    assert(no_opposing(bank_after(b, command_plan(cmd), command_plan(cmd).len() as int)));
}

} // verus!
