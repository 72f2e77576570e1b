//! The drive test without a network: one fixed routine, dead-reckoned by time. How far the bot goes
//! and how much it turns are set by the durations below.
use crate::board;
use crate::board::{Board, Duty, Hold, Level, Op};
use crate::motion;
use crate::motion::{Phase, Turn, Wires};
use vstd::prelude::*;

verus! {

/// Straight-line speed, in percent duty.
pub const DRIVE_DUTY: u8 = 40;

/// Turn speed, in percent duty. In-place spins fight more friction than the straights.
pub const TURN_DUTY: u8 = 50;

/// Long straight leg of the rectangle.
pub const LONG_LEG_MS: u64 = 1000;

/// Short straight leg of the rectangle.
pub const SHORT_LEG_MS: u64 = 500;

/// How long an in-place spin by 90 degrees takes. A half turn is two of these back to back.
pub const TURN_90_MS: u64 = 600;

/// Pause between moves, in which the momentum dies.
pub const SETTLE_MS: u64 = 300;

/// Pause before the first move, to set the bot down.
pub const LEAD_IN_MS: u64 = 2000;

/// PWM frequency on the enable lines.
pub const PWM_FREQ_HZ: u32 = 5000;

/// One DC motor behind an L298N channel. The direction lines at (high, low) spin it one way, at
/// (low, high) the other; both low is a fast brake.
#[derive(Clone, Copy, Debug, PartialEq, Eq, Structural)]
pub struct Motor {
    pub wires: Wires,
}

impl Motor {
    /// The steps that turn the wheel forward.
    pub open spec fn forward_ops(self, duty_pct: u8) -> Seq<Op> {
        motion::wheel_ops(self.wires, Level::High, Level::Low, Duty::Percent(duty_pct))
    }

    /// The steps that turn the wheel backward.
    pub open spec fn reverse_ops(self, duty_pct: u8) -> Seq<Op> {
        motion::wheel_ops(self.wires, Level::Low, Level::High, Duty::Percent(duty_pct))
    }

    /// The steps that brake the wheel.
    pub open spec fn stop_ops(self) -> Seq<Op> {
        motion::wheel_ops(self.wires, Level::Low, Level::Low, Duty::Percent(0))
    }

    /// Turns the wheel forward.
    pub fn forward(&self, duty_pct: u8, out: &mut Vec<Op>)
        requires
            duty_pct <= 100,
        ensures
            final(out)@ == old(out)@ + self.forward_ops(duty_pct),
    {
        out.push(Op::Write { pin: self.wires.in1, level: Level::High });
        out.push(Op::Write { pin: self.wires.in2, level: Level::Low });
        out.push(Op::Load { pin: self.wires.pwm, duty: Duty::Percent(duty_pct) });
    }

    /// Turns the wheel backward.
    pub fn reverse(&self, duty_pct: u8, out: &mut Vec<Op>)
        requires
            duty_pct <= 100,
        ensures
            final(out)@ == old(out)@ + self.reverse_ops(duty_pct),
    {
        out.push(Op::Write { pin: self.wires.in1, level: Level::Low });
        out.push(Op::Write { pin: self.wires.in2, level: Level::High });
        out.push(Op::Load { pin: self.wires.pwm, duty: Duty::Percent(duty_pct) });
    }

    /// Brake: both direction lines low, enable off.
    pub fn stop(&self, out: &mut Vec<Op>)
        ensures
            final(out)@ == old(out)@ + self.stop_ops(),
    {
        out.push(Op::Write { pin: self.wires.in1, level: Level::Low });
        out.push(Op::Write { pin: self.wires.in2, level: Level::Low });
        out.push(Op::Load { pin: self.wires.pwm, duty: Duty::Percent(0) });
    }
}

/// The left motor as it is wired.
pub fn left_motor() -> (motor: Motor)
    ensures
        motor == (Motor { wires: Wires { pwm: 0, in1: 1, in2: 10 } }),
{
    Motor { wires: Wires { pwm: 0, in1: 1, in2: 10 } }
}

/// The right motor as it is wired.
pub fn right_motor() -> (motor: Motor)
    ensures
        motor == (Motor { wires: Wires { pwm: 6, in1: 7, in2: 5 } }),
{
    Motor { wires: Wires { pwm: 6, in1: 7, in2: 5 } }
}

/// The steps that brake both wheels.
pub open spec fn stop_ops(left: Motor, right: Motor) -> Seq<Op> {
    left.stop_ops() + right.stop_ops()
}

/// The steps that drive straight ahead for `ms`.
pub open spec fn straight_ops(left: Motor, right: Motor, ms: u64) -> Seq<Op> {
    left.forward_ops(DRIVE_DUTY) + right.forward_ops(DRIVE_DUTY) + seq![Op::Wait { ms }] + stop_ops(
        left,
        right,
    )
}

/// The steps that spin on the spot for `ms`.
pub open spec fn spin_ops(left: Motor, right: Motor, turn: Turn, ms: u64) -> Seq<Op> {
    (match turn {
        Turn::Right => left.forward_ops(TURN_DUTY) + right.reverse_ops(TURN_DUTY),
        Turn::Left => left.reverse_ops(TURN_DUTY) + right.forward_ops(TURN_DUTY),
    }) + seq![Op::Wait { ms }] + stop_ops(left, right)
}

/// The steps that let the momentum die.
pub open spec fn settle_ops(left: Motor, right: Motor) -> Seq<Op> {
    stop_ops(left, right) + seq![Op::Wait { ms: SETTLE_MS }]
}

/// The steps for one leg of the rectangle and the corner behind it.
pub open spec fn leg_ops(left: Motor, right: Motor, turn: Turn, ms: u64) -> Seq<Op> {
    straight_ops(left, right, ms) + settle_ops(left, right) + spin_ops(
        left,
        right,
        turn,
        TURN_90_MS,
    ) + settle_ops(left, right)
}

/// The steps for the legs of `legs`, one after the other.
pub open spec fn legs_ops(left: Motor, right: Motor, turn: Turn, legs: Seq<u64>) -> Seq<Op>
    decreases legs.len(),
{
    if legs.len() == 0 {
        seq![]
    } else {
        legs_ops(left, right, turn, legs.drop_last()) + leg_ops(left, right, turn, legs.last())
    }
}

/// The steps for one rectangle.
pub open spec fn rectangle_ops(left: Motor, right: Motor, turn: Turn) -> Seq<Op> {
    legs_ops(left, right, turn, seq![LONG_LEG_MS, SHORT_LEG_MS, LONG_LEG_MS, SHORT_LEG_MS])
}

/// The steps for the whole routine.
pub open spec fn routine_ops(left: Motor, right: Motor) -> Seq<Op> {
    seq![Op::Wait { ms: LEAD_IN_MS }] + rectangle_ops(left, right, Turn::Right) + settle_ops(
        left,
        right,
    ) + spin_ops(left, right, Turn::Right, (2 * TURN_90_MS) as u64) + settle_ops(left, right)
        + rectangle_ops(left, right, Turn::Left) + stop_ops(left, right)
}

/// Both wheels forward at driving speed for `ms`.
pub fn straight(left: &Motor, right: &Motor, ms: u64, out: &mut Vec<Op>)
    ensures
        final(out)@ == old(out)@ + straight_ops(*left, *right, ms),
{
    left.forward(DRIVE_DUTY, out);
    right.forward(DRIVE_DUTY, out);
    out.push(Op::Wait { ms });
    left.stop(out);
    right.stop(out);
}

/// In-place spin: one wheel forward, the other in reverse, so that the bot rotates about its
/// centre. To turn right, the left wheel goes forward.
pub fn spin(left: &Motor, right: &Motor, turn: Turn, ms: u64, out: &mut Vec<Op>)
    ensures
        final(out)@ == old(out)@ + spin_ops(*left, *right, turn, ms),
{
    match turn {
        Turn::Right => {
            left.forward(TURN_DUTY, out);
            right.reverse(TURN_DUTY, out);
        },
        Turn::Left => {
            left.reverse(TURN_DUTY, out);
            right.forward(TURN_DUTY, out);
        },
    }
    out.push(Op::Wait { ms });
    left.stop(out);
    right.stop(out);
}

/// Brakes both wheels and pauses, so that the momentum dies between moves.
pub fn settle(left: &Motor, right: &Motor, out: &mut Vec<Op>)
    ensures
        final(out)@ == old(out)@ + settle_ops(*left, *right),
{
    left.stop(out);
    right.stop(out);
    out.push(Op::Wait { ms: SETTLE_MS });
}

/// Drives one rectangle. All corners turn the same way, so the bot traces a closed loop and ends
/// where it started, facing the start heading.
pub fn drive_rectangle(left: &Motor, right: &Motor, turn: Turn, out: &mut Vec<Op>)
    ensures
        final(out)@ == old(out)@ + rectangle_ops(*left, *right, turn),
{
    let legs: [u64; 4] = [LONG_LEG_MS, SHORT_LEG_MS, LONG_LEG_MS, SHORT_LEG_MS];
    let ghost start = out@;
    let mut i: usize = 0;
    assert(legs@.take(0) == Seq::<u64>::empty());
    while i < 4
        invariant
            i <= 4,
            legs@ == seq![LONG_LEG_MS, SHORT_LEG_MS, LONG_LEG_MS, SHORT_LEG_MS],
            out@ == start + legs_ops(*left, *right, turn, legs@.take(i as int)),
        decreases 4 - i,
    {
        straight(left, right, legs[i], out);
        settle(left, right, out);
        spin(left, right, turn, TURN_90_MS, out);
        settle(left, right, out);
        assert(legs@.take(i + 1).drop_last() == legs@.take(i as int));
        i = i + 1;
    }
    assert(legs@.take(4) == legs@);
}

/// The whole routine: after a moment to set the bot down, a rectangle to the right, a half turn and
/// the mirror-image rectangle to the left. The bot is parked with everything braked.
pub fn drive_full_routine(left: &Motor, right: &Motor, out: &mut Vec<Op>)
    ensures
        final(out)@ == old(out)@ + routine_ops(*left, *right),
{
    out.push(Op::Wait { ms: LEAD_IN_MS });
    drive_rectangle(left, right, Turn::Right, out);
    settle(left, right, out);
    spin(left, right, Turn::Right, 2 * TURN_90_MS, out);
    settle(left, right, out);
    drive_rectangle(left, right, Turn::Left, out);
    left.stop(out);
    right.stop(out);
}

/// No line serves two purposes.
pub open spec fn apart(left: Motor, right: Motor) -> bool {
    let l = left.wires;
    let r = right.wires;
    &&& l.pwm != l.in1 && l.pwm != l.in2 && l.pwm != r.pwm && l.pwm != r.in1 && l.pwm != r.in2
    &&& l.in1 != l.in2 && l.in1 != r.pwm && l.in1 != r.in1 && l.in1 != r.in2
    &&& l.in2 != r.pwm && l.in2 != r.in1 && l.in2 != r.in2
    &&& r.pwm != r.in1 && r.pwm != r.in2 && r.in1 != r.in2
}

/// Both wheels braked with their enable lines off.
pub open spec fn braked(left: Motor, right: Motor, board: Board) -> bool {
    &&& motion::motion(board, left.wires) is Brake
    &&& motion::motion(board, right.wires) is Brake
    &&& board.duty[left.wires.pwm] == Duty::Percent(0)
    &&& board.duty[right.wires.pwm] == Duty::Percent(0)
}

/// The phases of `ops` on these motors.
pub open spec fn motor_phases(left: Motor, right: Motor, board: Board, ops: Seq<Op>) -> Seq<
    Phase,
> {
    motion::phases(board, left.wires, right.wires, ops)
}

/// Setting both wheels takes no time and has them do what each is told.
proof fn lemma_wheels(
    left: Motor,
    right: Motor,
    board: Board,
    left_in1: Level,
    left_in2: Level,
    left_duty: Duty,
    right_in1: Level,
    right_in2: Level,
    right_duty: Duty,
)
    requires
        apart(left, right),
    ensures
        ({
            let ops = motion::wheel_ops(left.wires, left_in1, left_in2, left_duty)
                + motion::wheel_ops(right.wires, right_in1, right_in2, right_duty);
            let after = board.run(ops);
            &&& motor_phases(left, right, board, ops) == Seq::<Phase>::empty()
            &&& motion::motion(after, left.wires) == motion::told(left_in1, left_in2)
            &&& motion::motion(after, right.wires) == motion::told(right_in1, right_in2)
            &&& after.duty[left.wires.pwm] == left_duty
            &&& after.duty[right.wires.pwm] == right_duty
        }),
{
    let a = motion::wheel_ops(left.wires, left_in1, left_in2, left_duty);
    let b = motion::wheel_ops(right.wires, right_in1, right_in2, right_duty);
    board::run_in_parts(board, a, b);
    motion::wheel_ops_set_the_wheel(board, left.wires, left_in1, left_in2, left_duty);
    motion::wheel_ops_set_the_wheel(board.run(a), right.wires, right_in1, right_in2, right_duty);
    motion::no_wait_no_phase(board, left.wires, right.wires, a + b);
}

/// Whatever the wheels were doing, a stop brakes both.
pub proof fn stop_brakes(left: Motor, right: Motor, board: Board)
    requires
        apart(left, right),
    ensures
        braked(left, right, board.run(stop_ops(left, right))),
        motor_phases(left, right, board, stop_ops(left, right)) == Seq::<Phase>::empty(),
{
    lemma_wheels(
        left,
        right,
        board,
        Level::Low,
        Level::Low,
        Duty::Percent(0),
        Level::Low,
        Level::Low,
        Duty::Percent(0),
    );
}

/// A move set up by `ops` lasts for its time and ends braked.
proof fn lemma_move(left: Motor, right: Motor, board: Board, ops: Seq<Op>, ms: u64)
    requires
        apart(left, right),
        motor_phases(left, right, board, ops) == Seq::<Phase>::empty(),
    ensures
        ({
            let set = board.run(ops);
            let all = ops + seq![Op::Wait { ms }] + stop_ops(left, right);
            &&& motor_phases(left, right, board, all) == seq![
                Phase {
                    left: motion::motion(set, left.wires),
                    right: motion::motion(set, right.wires),
                    ms: ms as nat,
                },
            ]
            &&& braked(left, right, board.run(all))
        }),
{
    let l = left.wires;
    let r = right.wires;
    let c = seq![Op::Wait { ms }];
    let d = stop_ops(left, right);
    motion::phases_in_parts(board, l, r, ops, c);
    motion::phases_in_parts(board, l, r, ops + c, d);
    motion::one_wait_one_phase(board.run(ops), l, r, ms);
    board::run_in_parts(board, ops + c, d);
    stop_brakes(left, right, board.run(ops + c));
}

/// Driving straight turns both wheels forward for the time given, and ends braked.
pub proof fn straight_goes_straight(left: Motor, right: Motor, board: Board, ms: u64)
    requires
        apart(left, right),
    ensures
        motor_phases(left, right, board, straight_ops(left, right, ms)) == seq![
            motion::straight_phase(ms as nat),
        ],
        braked(left, right, board.run(straight_ops(left, right, ms))),
{
    let duty = Duty::Percent(DRIVE_DUTY);
    lemma_wheels(left, right, board, Level::High, Level::Low, duty, Level::High, Level::Low, duty);
    lemma_move(
        left,
        right,
        board,
        left.forward_ops(DRIVE_DUTY) + right.forward_ops(DRIVE_DUTY),
        ms,
    );
}

/// A spin turns one wheel forward and the other back for the time given, and ends braked.
pub proof fn spin_turns_on_the_spot(left: Motor, right: Motor, board: Board, turn: Turn, ms: u64)
    requires
        apart(left, right),
    ensures
        motor_phases(left, right, board, spin_ops(left, right, turn, ms)) == seq![
            motion::spin_phase(turn, ms as nat),
        ],
        braked(left, right, board.run(spin_ops(left, right, turn, ms))),
{
    let duty = Duty::Percent(TURN_DUTY);
    match turn {
        Turn::Right => {
            lemma_wheels(
                left,
                right,
                board,
                Level::High,
                Level::Low,
                duty,
                Level::Low,
                Level::High,
                duty,
            );
            lemma_move(
                left,
                right,
                board,
                left.forward_ops(TURN_DUTY) + right.reverse_ops(TURN_DUTY),
                ms,
            );
        },
        Turn::Left => {
            lemma_wheels(
                left,
                right,
                board,
                Level::Low,
                Level::High,
                duty,
                Level::High,
                Level::Low,
                duty,
            );
            lemma_move(
                left,
                right,
                board,
                left.reverse_ops(TURN_DUTY) + right.forward_ops(TURN_DUTY),
                ms,
            );
        },
    }
}

/// Settling keeps both wheels braked for its time, and leaves them so.
pub proof fn settle_rests(left: Motor, right: Motor, board: Board)
    requires
        apart(left, right),
    ensures
        motor_phases(left, right, board, settle_ops(left, right)) == seq![
            motion::rest_phase(SETTLE_MS as nat),
        ],
        braked(left, right, board.run(settle_ops(left, right))),
{
    let l = left.wires;
    let r = right.wires;
    let wait = Op::Wait { ms: SETTLE_MS };
    let stop = stop_ops(left, right);
    stop_brakes(left, right, board);
    board::run_in_parts(board, stop, seq![wait]);
    board::run_one(board.run(stop), wait);
    motion::phases_in_parts(board, l, r, stop, seq![wait]);
    motion::one_wait_one_phase(board.run(stop), l, r, SETTLE_MS);
}

/// The phases of a leg.
proof fn lemma_leg(left: Motor, right: Motor, board: Board, turn: Turn, ms: u64)
    requires
        apart(left, right),
    ensures
        motor_phases(left, right, board, leg_ops(left, right, turn, ms)) == motion::leg_phases(
            turn,
            ms as nat,
            TURN_90_MS as nat,
            SETTLE_MS as nat,
        ),
        braked(left, right, board.run(leg_ops(left, right, turn, ms))),
{
    let l = left.wires;
    let r = right.wires;
    let a = straight_ops(left, right, ms);
    let b = settle_ops(left, right);
    let c = spin_ops(left, right, turn, TURN_90_MS);
    straight_goes_straight(left, right, board, ms);
    settle_rests(left, right, board.run(a));
    spin_turns_on_the_spot(left, right, board.run(a + b), turn, TURN_90_MS);
    settle_rests(left, right, board.run(a + b + c));
    motion::phases_in_parts(board, l, r, a, b);
    motion::phases_in_parts(board, l, r, a + b, c);
    motion::phases_in_parts(board, l, r, a + b + c, b);
    board::run_in_parts(board, a + b + c, b);
}

/// One leg more.
proof fn lemma_one_leg_more(left: Motor, right: Motor, turn: Turn, legs: Seq<u64>, ms: u64)
    ensures
        legs_ops(left, right, turn, legs.push(ms)) == legs_ops(left, right, turn, legs) + leg_ops(
            left,
            right,
            turn,
            ms,
        ),
{
    assert(legs.push(ms).drop_last() == legs);
}

/// A rectangle is four legs, a long and a short one in turn.
proof fn lemma_rectangle_legs(left: Motor, right: Motor, turn: Turn)
    ensures
        rectangle_ops(left, right, turn) == leg_ops(left, right, turn, LONG_LEG_MS) + leg_ops(
            left,
            right,
            turn,
            SHORT_LEG_MS,
        ) + leg_ops(left, right, turn, LONG_LEG_MS) + leg_ops(left, right, turn, SHORT_LEG_MS),
{
    let none = Seq::<u64>::empty();
    let one = none.push(LONG_LEG_MS);
    let two = one.push(SHORT_LEG_MS);
    let three = two.push(LONG_LEG_MS);
    lemma_one_leg_more(left, right, turn, none, LONG_LEG_MS);
    lemma_one_leg_more(left, right, turn, one, SHORT_LEG_MS);
    lemma_one_leg_more(left, right, turn, two, LONG_LEG_MS);
    lemma_one_leg_more(left, right, turn, three, SHORT_LEG_MS);
    assert(three.push(SHORT_LEG_MS) == seq![
        LONG_LEG_MS,
        SHORT_LEG_MS,
        LONG_LEG_MS,
        SHORT_LEG_MS,
    ]);
    assert(legs_ops(left, right, turn, one) == leg_ops(left, right, turn, LONG_LEG_MS));
}

/// Driving a rectangle is what a rectangle is, leg for leg and corner for corner, and ends braked.
pub proof fn rectangle_is_driven(left: Motor, right: Motor, board: Board, turn: Turn)
    requires
        apart(left, right),
    ensures
        motor_phases(left, right, board, rectangle_ops(left, right, turn))
            == motion::rectangle_phases(
            turn,
            LONG_LEG_MS as nat,
            SHORT_LEG_MS as nat,
            TURN_90_MS as nat,
            SETTLE_MS as nat,
        ),
        braked(left, right, board.run(rectangle_ops(left, right, turn))),
{
    let l = left.wires;
    let r = right.wires;
    let long = leg_ops(left, right, turn, LONG_LEG_MS);
    let short = leg_ops(left, right, turn, SHORT_LEG_MS);
    lemma_rectangle_legs(left, right, turn);
    lemma_leg(left, right, board, turn, LONG_LEG_MS);
    lemma_leg(left, right, board.run(long), turn, SHORT_LEG_MS);
    lemma_leg(left, right, board.run(long + short), turn, LONG_LEG_MS);
    lemma_leg(left, right, board.run(long + short + long), turn, SHORT_LEG_MS);
    motion::phases_in_parts(board, l, r, long, short);
    motion::phases_in_parts(board, l, r, long + short, long);
    motion::phases_in_parts(board, l, r, long + short + long, short);
    board::run_in_parts(board, long + short + long, short);
}

/// By dead reckoning a rectangle brings the bot back to where it started and to the heading it
/// started with.
pub proof fn rectangle_returns(
    left: Motor,
    right: Motor,
    board: Board,
    turn: Turn,
    pose: motion::Pose,
)
    requires
        apart(left, right),
    ensures
        ({
            let end = motion::travel(
                pose,
                motor_phases(left, right, board, rectangle_ops(left, right, turn)),
                TURN_90_MS as nat,
            );
            &&& end.along == pose.along
            &&& end.across == pose.across
            &&& end.quarters % 4 == pose.quarters % 4
        }),
{
    rectangle_is_driven(left, right, board, turn);
    motion::rectangle_closes(
        pose,
        turn,
        LONG_LEG_MS as nat,
        SHORT_LEG_MS as nat,
        TURN_90_MS as nat,
        SETTLE_MS as nat,
    );
}

/// The rectangle to the left is the mirror image of the one to the right, and the one to the right
/// that of the one to the left.
pub proof fn rectangles_mirror(
    left: Motor,
    right: Motor,
    board: Board,
    other_board: Board,
    turn: Turn,
)
    requires
        apart(left, right),
    ensures
        motor_phases(left, right, board, rectangle_ops(left, right, motion::opposite(turn)))
            == motion::mirrored(
            motor_phases(left, right, other_board, rectangle_ops(left, right, turn)),
        ),
{
    rectangle_is_driven(left, right, board, motion::opposite(turn));
    rectangle_is_driven(left, right, other_board, turn);
    motion::rectangles_are_mirror_images(
        turn,
        LONG_LEG_MS as nat,
        SHORT_LEG_MS as nat,
        TURN_90_MS as nat,
        SETTLE_MS as nat,
    );
}

/// From a standstill the routine waits, then drives a rectangle to the right, a half turn and the
/// rectangle to the left, and ends braked.
pub proof fn routine_is_driven(left: Motor, right: Motor, board: Board)
    requires
        apart(left, right),
        braked(left, right, board),
    ensures
        motor_phases(left, right, board, routine_ops(left, right)) == seq![
            motion::rest_phase(LEAD_IN_MS as nat),
        ] + motion::routine_phases(
            LONG_LEG_MS as nat,
            SHORT_LEG_MS as nat,
            TURN_90_MS as nat,
            SETTLE_MS as nat,
        ),
        braked(left, right, board.run(routine_ops(left, right))),
{
    let l = left.wires;
    let r = right.wires;
    let z = seq![Op::Wait { ms: LEAD_IN_MS }];
    let a = rectangle_ops(left, right, Turn::Right);
    let b = settle_ops(left, right);
    let half = (2 * TURN_90_MS) as u64;
    let c = spin_ops(left, right, Turn::Right, half);
    let d = rectangle_ops(left, right, Turn::Left);
    let e = stop_ops(left, right);
    motion::one_wait_one_phase(board, l, r, LEAD_IN_MS);
    rectangle_is_driven(left, right, board.run(z), Turn::Right);
    settle_rests(left, right, board.run(z + a));
    spin_turns_on_the_spot(left, right, board.run(z + a + b), Turn::Right, half);
    settle_rests(left, right, board.run(z + a + b + c));
    rectangle_is_driven(left, right, board.run(z + a + b + c + b), Turn::Left);
    stop_brakes(left, right, board.run(z + a + b + c + b + d));
    motion::phases_in_parts(board, l, r, z, a);
    motion::phases_in_parts(board, l, r, z + a, b);
    motion::phases_in_parts(board, l, r, z + a + b, c);
    motion::phases_in_parts(board, l, r, z + a + b + c, b);
    motion::phases_in_parts(board, l, r, z + a + b + c + b, d);
    motion::phases_in_parts(board, l, r, z + a + b + c + b + d, e);
    board::run_in_parts(board, z + a + b + c + b + d, e);
}

/// The board with every line of both motors set: the direction lines and the percentage of the left
/// one, and those of the right one.
pub open spec fn posed(
    left: Motor,
    right: Motor,
    board: Board,
    left_in1: Level,
    left_in2: Level,
    left_pct: u8,
    right_in1: Level,
    right_in2: Level,
    right_pct: u8,
) -> Board {
    Board {
        level: board.level.insert(left.wires.in1, left_in1).insert(
            left.wires.in2,
            left_in2,
        ).insert(right.wires.in1, right_in1).insert(right.wires.in2, right_in2),
        duty: board.duty.insert(left.wires.pwm, Duty::Percent(left_pct)).insert(
            right.wires.pwm,
            Duty::Percent(right_pct),
        ),
    }
}

/// The board with both wheels braked and their enable lines off.
pub open spec fn at_rest(left: Motor, right: Motor, board: Board) -> Board {
    posed(left, right, board, Level::Low, Level::Low, 0, Level::Low, Level::Low, 0)
}

/// Setting every line of both motors sets each to what is given for it, and no other line.
pub proof fn posed_line_by_line(
    left: Motor,
    right: Motor,
    board: Board,
    left_in1: Level,
    left_in2: Level,
    left_pct: u8,
    right_in1: Level,
    right_in2: Level,
    right_pct: u8,
)
    requires
        apart(left, right),
    ensures
        ({
            let l = left.wires;
            let r = right.wires;
            let after = posed(
                left,
                right,
                board,
                left_in1,
                left_in2,
                left_pct,
                right_in1,
                right_in2,
                right_pct,
            );
            &&& after.level[l.in1] == left_in1
            &&& after.level[l.in2] == left_in2
            &&& after.duty[l.pwm] == Duty::Percent(left_pct)
            &&& after.level[r.in1] == right_in1
            &&& after.level[r.in2] == right_in2
            &&& after.duty[r.pwm] == Duty::Percent(right_pct)
            &&& forall|pin: u8|
                pin != l.in1 && pin != l.in2 && pin != r.in1 && pin != r.in2
                    ==> #[trigger] after.level[pin] == board.level[pin]
            &&& forall|pin: u8|
                pin != l.pwm && pin != r.pwm ==> #[trigger] after.duty[pin] == board.duty[pin]
        }),
{
}

/// Motors at rest have every direction line low and both enable lines off.
pub proof fn at_rest_line_by_line(left: Motor, right: Motor, board: Board)
    requires
        apart(left, right),
    ensures
        ({
            let after = at_rest(left, right, board);
            &&& after.level[left.wires.in1] == Level::Low
            &&& after.level[left.wires.in2] == Level::Low
            &&& after.duty[left.wires.pwm] == Duty::Percent(0)
            &&& after.level[right.wires.in1] == Level::Low
            &&& after.level[right.wires.in2] == Level::Low
            &&& after.duty[right.wires.pwm] == Duty::Percent(0)
        }),
{
}

/// The steps of a single motor set its own three lines, and no other, in no time.
pub proof fn motor_sets_its_own_lines(board: Board, motor: Motor, duty_pct: u8)
    ensures
        board.run(motor.forward_ops(duty_pct)) == (Board {
            level: board.level.insert(motor.wires.in1, Level::High).insert(
                motor.wires.in2,
                Level::Low,
            ),
            duty: board.duty.insert(motor.wires.pwm, Duty::Percent(duty_pct)),
        }),
        board.run(motor.reverse_ops(duty_pct)) == (Board {
            level: board.level.insert(motor.wires.in1, Level::Low).insert(
                motor.wires.in2,
                Level::High,
            ),
            duty: board.duty.insert(motor.wires.pwm, Duty::Percent(duty_pct)),
        }),
        board.run(motor.stop_ops()) == (Board {
            level: board.level.insert(motor.wires.in1, Level::Low).insert(
                motor.wires.in2,
                Level::Low,
            ),
            duty: board.duty.insert(motor.wires.pwm, Duty::Percent(0)),
        }),
        board::holds(board, motor.forward_ops(duty_pct)) == Seq::<Hold>::empty(),
        board::holds(board, motor.reverse_ops(duty_pct)) == Seq::<Hold>::empty(),
        board::holds(board, motor.stop_ops()) == Seq::<Hold>::empty(),
{
    let w = motor.wires;
    let duty = Duty::Percent(duty_pct);
    motion::wheel_ops_set_the_wheel(board, w, Level::High, Level::Low, duty);
    motion::wheel_ops_set_the_wheel(board, w, Level::Low, Level::High, duty);
    motion::wheel_ops_set_the_wheel(board, w, Level::Low, Level::Low, Duty::Percent(0));
    board::no_wait_no_hold(board, motor.forward_ops(duty_pct));
    board::no_wait_no_hold(board, motor.reverse_ops(duty_pct));
    board::no_wait_no_hold(board, motor.stop_ops());
}

/// The speed of a wheel changes only once its direction lines stand as they are to stand.
pub proof fn speed_follows_direction(board: Board, motor: Motor, duty_pct: u8, i: int)
    requires
        motor.wires.in1 != motor.wires.in2,
        0 <= i,
    ensures
        i <= motor.forward_ops(duty_pct).len() ==> ({
            let then = board.run(motor.forward_ops(duty_pct).take(i));
            then.duty == board.duty || then.level[motor.wires.in1] == Level::High
                && then.level[motor.wires.in2] == Level::Low
        }),
        i <= motor.reverse_ops(duty_pct).len() ==> ({
            let then = board.run(motor.reverse_ops(duty_pct).take(i));
            then.duty == board.duty || then.level[motor.wires.in1] == Level::Low
                && then.level[motor.wires.in2] == Level::High
        }),
        i <= motor.stop_ops().len() ==> ({
            let then = board.run(motor.stop_ops().take(i));
            then.duty == board.duty || then.level[motor.wires.in1] == Level::Low
                && then.level[motor.wires.in2] == Level::Low
        }),
{
    let duty = Duty::Percent(duty_pct);
    lemma_wheel_step(board, motor.wires, Level::High, Level::Low, duty, i);
    lemma_wheel_step(board, motor.wires, Level::Low, Level::High, duty, i);
    lemma_wheel_step(board, motor.wires, Level::Low, Level::Low, Duty::Percent(0), i);
}

/// The steps of one motor, one by one.
proof fn lemma_wheel_step(
    board: Board,
    wires: Wires,
    in1: Level,
    in2: Level,
    duty: Duty,
    i: int,
)
    requires
        wires.in1 != wires.in2,
        0 <= i,
    ensures
        i <= 3 ==> ({
            let then = board.run(motion::wheel_ops(wires, in1, in2, duty).take(i));
            then.duty == board.duty || then.level[wires.in1] == in1 && then.level[wires.in2] == in2
        }),
{
    let ops = motion::wheel_ops(wires, in1, in2, duty);
    if i == 0 {
        assert(ops.take(i) == Seq::<Op>::empty());
    } else if i == 1 {
        assert(ops.take(i) == seq![ops[0]]);
        board::run_one(board, ops[0]);
    } else if i == 2 {
        assert(ops.take(i) == seq![ops[0]].push(ops[1]));
        board::run_one(board, ops[0]);
        board::run_one_more(board, seq![ops[0]], ops[1]);
    } else if i == 3 {
        assert(ops.take(i) == ops);
        motion::wheel_ops_set_the_wheel(board, wires, in1, in2, duty);
    }
}

/// A stop puts both motors to rest, whatever they were doing, leaves every other line as it was, and
/// takes no time.
pub proof fn stop_sets_every_line(left: Motor, right: Motor, board: Board)
    requires
        apart(left, right),
    ensures
        board.run(stop_ops(left, right)) == at_rest(left, right, board),
        board::holds(board, stop_ops(left, right)) == Seq::<Hold>::empty(),
{
    motor_sets_its_own_lines(board, left, 0);
    motor_sets_its_own_lines(board.run(left.stop_ops()), right, 0);
    board::run_in_parts(board, left.stop_ops(), right.stop_ops());
    board::holds_in_parts(board, left.stop_ops(), right.stop_ops());
}

/// The board in the wait of a move that `ops` set up, and behind it.
proof fn lemma_move_holds(
    left: Motor,
    right: Motor,
    board: Board,
    first: Seq<Op>,
    second: Seq<Op>,
    set: Board,
    ms: u64,
)
    requires
        apart(left, right),
        board::holds(board, first) == Seq::<Hold>::empty(),
        board::holds(board.run(first), second) == Seq::<Hold>::empty(),
        board.run(first).run(second) == set,
        at_rest(left, right, set) == at_rest(left, right, board),
    ensures
        ({
            let all = first + second + seq![Op::Wait { ms }] + stop_ops(left, right);
            &&& board::holds(board, all) == seq![Hold { board: set, ms: ms as nat }]
            &&& board.run(all) == at_rest(left, right, board)
        }),
{
    let c = seq![Op::Wait { ms }];
    let d = stop_ops(left, right);
    board::run_in_parts(board, first, second);
    board::holds_in_parts(board, first, second);
    board::one_wait_one_hold(set, ms);
    board::run_in_parts(board, first + second, c);
    board::holds_in_parts(board, first + second, c);
    stop_sets_every_line(left, right, set);
    board::run_in_parts(board, first + second + c, d);
    board::holds_in_parts(board, first + second + c, d);
}

/// Driving straight is one wait for the time given, with both wheels forward at driving speed.
/// Behind it the motors are at rest.
pub proof fn straight_holds(left: Motor, right: Motor, board: Board, ms: u64)
    requires
        apart(left, right),
    ensures
        board::holds(board, straight_ops(left, right, ms)) == seq![
            Hold {
                board: posed(
                    left,
                    right,
                    board,
                    Level::High,
                    Level::Low,
                    40,
                    Level::High,
                    Level::Low,
                    40,
                ),
                ms: ms as nat,
            },
        ],
        board.run(straight_ops(left, right, ms)) == at_rest(left, right, board),
{
    let a = left.forward_ops(DRIVE_DUTY);
    let b = right.forward_ops(DRIVE_DUTY);
    let set = going(left, right, board);
    motor_sets_its_own_lines(board, left, DRIVE_DUTY);
    motor_sets_its_own_lines(board.run(a), right, DRIVE_DUTY);
    assert(at_rest(left, right, set).level == at_rest(left, right, board).level);
    assert(at_rest(left, right, set).duty == at_rest(left, right, board).duty);
    lemma_move_holds(left, right, board, a, b, set, ms);
}

/// A spin is one wait for the time given, with the wheels against each other at turning speed, the
/// left one forward in a turn to the right. Behind it the motors are at rest.
pub proof fn spin_holds(left: Motor, right: Motor, board: Board, turn: Turn, ms: u64)
    requires
        apart(left, right),
    ensures
        board::holds(board, spin_ops(left, right, turn, ms)) == seq![
            Hold {
                board: match turn {
                    Turn::Right => posed(
                        left,
                        right,
                        board,
                        Level::High,
                        Level::Low,
                        50,
                        Level::Low,
                        Level::High,
                        50,
                    ),
                    Turn::Left => posed(
                        left,
                        right,
                        board,
                        Level::Low,
                        Level::High,
                        50,
                        Level::High,
                        Level::Low,
                        50,
                    ),
                },
                ms: ms as nat,
            },
        ],
        board.run(spin_ops(left, right, turn, ms)) == at_rest(left, right, board),
{
    let set = turning(left, right, board, turn);
    let (a, b) = match turn {
        Turn::Right => (left.forward_ops(TURN_DUTY), right.reverse_ops(TURN_DUTY)),
        Turn::Left => (left.reverse_ops(TURN_DUTY), right.forward_ops(TURN_DUTY)),
    };
    motor_sets_its_own_lines(board, left, TURN_DUTY);
    motor_sets_its_own_lines(board.run(a), right, TURN_DUTY);
    assert(at_rest(left, right, set).level == at_rest(left, right, board).level);
    assert(at_rest(left, right, set).duty == at_rest(left, right, board).duty);
    lemma_move_holds(left, right, board, a, b, set, ms);
}

/// Settling is one wait of 300 ms, at rest.
pub proof fn settle_holds(left: Motor, right: Motor, board: Board)
    requires
        apart(left, right),
    ensures
        board::holds(board, settle_ops(left, right)) == seq![
            Hold { board: at_rest(left, right, board), ms: 300 },
        ],
        board.run(settle_ops(left, right)) == at_rest(left, right, board),
{
    let wait = seq![Op::Wait { ms: SETTLE_MS }];
    let stop = stop_ops(left, right);
    stop_sets_every_line(left, right, board);
    board::one_wait_one_hold(at_rest(left, right, board), SETTLE_MS);
    board::run_in_parts(board, stop, wait);
    board::holds_in_parts(board, stop, wait);
    assert(Seq::<Hold>::empty() + board::holds(board.run(stop), wait) == board::holds(
        board.run(stop),
        wait,
    ));
}

/// The board while the bot drives straight.
spec fn going(left: Motor, right: Motor, board: Board) -> Board {
    posed(left, right, board, Level::High, Level::Low, 40, Level::High, Level::Low, 40)
}

/// The board while the bot turns.
spec fn turning(left: Motor, right: Motor, board: Board, turn: Turn) -> Board {
    match turn {
        Turn::Right => posed(
            left,
            right,
            board,
            Level::High,
            Level::Low,
            50,
            Level::Low,
            Level::High,
            50,
        ),
        Turn::Left => posed(
            left,
            right,
            board,
            Level::Low,
            Level::High,
            50,
            Level::High,
            Level::Low,
            50,
        ),
    }
}

/// Once at rest, the bot goes, turns and rests as it does from the start.
proof fn lemma_from_rest(left: Motor, right: Motor, board: Board, turn: Turn)
    requires
        apart(left, right),
    ensures
        ({
            let rest = at_rest(left, right, board);
            &&& going(left, right, rest) == going(left, right, board)
            &&& turning(left, right, rest, turn) == turning(left, right, board, turn)
            &&& at_rest(left, right, rest) == rest
        }),
{
    let rest = at_rest(left, right, board);
    assert(going(left, right, rest).level == going(left, right, board).level);
    assert(going(left, right, rest).duty == going(left, right, board).duty);
    assert(turning(left, right, rest, turn).level == turning(left, right, board, turn).level);
    assert(turning(left, right, rest, turn).duty == turning(left, right, board, turn).duty);
    assert(at_rest(left, right, rest).level == rest.level);
    assert(at_rest(left, right, rest).duty == rest.duty);
}

/// The waits of a leg and its corner.
proof fn lemma_leg_holds(left: Motor, right: Motor, board: Board, turn: Turn, ms: u64)
    requires
        apart(left, right),
    ensures
        board::holds(board, leg_ops(left, right, turn, ms)) == seq![
            Hold { board: going(left, right, board), ms: ms as nat },
            Hold { board: at_rest(left, right, board), ms: 300 },
            Hold { board: turning(left, right, board, turn), ms: 600 },
            Hold { board: at_rest(left, right, board), ms: 300 },
        ],
        board.run(leg_ops(left, right, turn, ms)) == at_rest(left, right, board),
{
    let rest = at_rest(left, right, board);
    let a = straight_ops(left, right, ms);
    let b = settle_ops(left, right);
    let c = spin_ops(left, right, turn, TURN_90_MS);
    lemma_from_rest(left, right, board, turn);
    straight_holds(left, right, board, ms);
    settle_holds(left, right, rest);
    spin_holds(left, right, rest, turn, TURN_90_MS);
    board::run_in_parts(board, a, b);
    board::run_in_parts(board, a + b, c);
    board::run_in_parts(board, a + b + c, b);
    board::holds_in_parts(board, a, b);
    board::holds_in_parts(board, a + b, c);
    board::holds_in_parts(board, a + b + c, b);
}

/// A rectangle, wait for wait: legs of 1000 and 500 ms in turn, two of each, at driving speed, and
/// behind each a corner of 600 ms on the spot at turning speed, all the same way, with a rest of 300
/// ms behind every leg and every corner. Behind it the motors are at rest.
pub proof fn rectangle_holds(left: Motor, right: Motor, board: Board, turn: Turn)
    requires
        apart(left, right),
    ensures
        ({
            let go = posed(
                left,
                right,
                board,
                Level::High,
                Level::Low,
                40,
                Level::High,
                Level::Low,
                40,
            );
            let corner = match turn {
                Turn::Right => posed(
                    left,
                    right,
                    board,
                    Level::High,
                    Level::Low,
                    50,
                    Level::Low,
                    Level::High,
                    50,
                ),
                Turn::Left => posed(
                    left,
                    right,
                    board,
                    Level::Low,
                    Level::High,
                    50,
                    Level::High,
                    Level::Low,
                    50,
                ),
            };
            let rest = at_rest(left, right, board);
            board::holds(board, rectangle_ops(left, right, turn)) == seq![
                Hold { board: go, ms: 1000 },
                Hold { board: rest, ms: 300 },
                Hold { board: corner, ms: 600 },
                Hold { board: rest, ms: 300 },
                Hold { board: go, ms: 500 },
                Hold { board: rest, ms: 300 },
                Hold { board: corner, ms: 600 },
                Hold { board: rest, ms: 300 },
                Hold { board: go, ms: 1000 },
                Hold { board: rest, ms: 300 },
                Hold { board: corner, ms: 600 },
                Hold { board: rest, ms: 300 },
                Hold { board: go, ms: 500 },
                Hold { board: rest, ms: 300 },
                Hold { board: corner, ms: 600 },
                Hold { board: rest, ms: 300 },
            ]
        }),
        board.run(rectangle_ops(left, right, turn)) == at_rest(left, right, board),
{
    let rest = at_rest(left, right, board);
    let long = leg_ops(left, right, turn, LONG_LEG_MS);
    let short = leg_ops(left, right, turn, SHORT_LEG_MS);
    lemma_rectangle_legs(left, right, turn);
    lemma_from_rest(left, right, board, turn);
    lemma_leg_holds(left, right, board, turn, LONG_LEG_MS);
    lemma_leg_holds(left, right, rest, turn, SHORT_LEG_MS);
    lemma_leg_holds(left, right, rest, turn, LONG_LEG_MS);
    board::run_in_parts(board, long, short);
    board::run_in_parts(board, long + short, long);
    board::run_in_parts(board, long + short + long, short);
    board::holds_in_parts(board, long, short);
    board::holds_in_parts(board, long + short, long);
    board::holds_in_parts(board, long + short + long, short);
}

/// The routine, wait for wait: 2000 ms as the bot is found, a rectangle to the right, a half turn to
/// the right of 1200 ms at turning speed between two rests, and a rectangle to the left. Behind it
/// the motors are at rest.
pub proof fn routine_holds(left: Motor, right: Motor, board: Board)
    requires
        apart(left, right),
    ensures
        ({
            let half_turn = posed(
                left,
                right,
                board,
                Level::High,
                Level::Low,
                50,
                Level::Low,
                Level::High,
                50,
            );
            board::holds(board, routine_ops(left, right)) == seq![
                Hold { board, ms: 2000 },
            ] + board::holds(board, rectangle_ops(left, right, Turn::Right)) + seq![
                Hold { board: at_rest(left, right, board), ms: 300 },
                Hold { board: half_turn, ms: 1200 },
                Hold { board: at_rest(left, right, board), ms: 300 },
            ] + board::holds(board, rectangle_ops(left, right, Turn::Left))
        }),
        board.run(routine_ops(left, right)) == at_rest(left, right, board),
{
    let rest = at_rest(left, right, board);
    let z = seq![Op::Wait { ms: LEAD_IN_MS }];
    let a = rectangle_ops(left, right, Turn::Right);
    let b = settle_ops(left, right);
    let half = (2 * TURN_90_MS) as u64;
    let c = spin_ops(left, right, Turn::Right, half);
    let d = rectangle_ops(left, right, Turn::Left);
    let e = stop_ops(left, right);
    lemma_from_rest(left, right, board, Turn::Right);
    lemma_from_rest(left, right, board, Turn::Left);
    board::one_wait_one_hold(board, LEAD_IN_MS);
    rectangle_holds(left, right, board, Turn::Right);
    settle_holds(left, right, rest);
    spin_holds(left, right, rest, Turn::Right, half);
    rectangle_holds(left, right, rest, Turn::Left);
    rectangle_holds(left, right, board, Turn::Left);
    stop_sets_every_line(left, right, rest);
    board::run_in_parts(board, z, a);
    board::run_in_parts(board, z + a, b);
    board::run_in_parts(board, z + a + b, c);
    board::run_in_parts(board, z + a + b + c, b);
    board::run_in_parts(board, z + a + b + c + b, d);
    board::run_in_parts(board, z + a + b + c + b + d, e);
    board::holds_in_parts(board, z, a);
    board::holds_in_parts(board, z + a, b);
    board::holds_in_parts(board, z + a + b, c);
    board::holds_in_parts(board, z + a + b + c, b);
    board::holds_in_parts(board, z + a + b + c + b, d);
    board::holds_in_parts(board, z + a + b + c + b + d, e);
    assert(board::holds(rest, d) == board::holds(board, d));
}

/// Motors are apart if and only if their six lines are six different ones.
pub proof fn apart_by_their_lines(left: Motor, right: Motor)
    ensures
        apart(left, right) <==> seq![
            left.wires.pwm,
            left.wires.in1,
            left.wires.in2,
            right.wires.pwm,
            right.wires.in1,
            right.wires.in2,
        ].no_duplicates(),
{
    let lines = seq![
        left.wires.pwm,
        left.wires.in1,
        left.wires.in2,
        right.wires.pwm,
        right.wires.in1,
        right.wires.in2,
    ];
    if lines.no_duplicates() {
        assert forall|i: int, j: int| 0 <= i < j < 6 implies #[trigger] lines[i] != #[trigger] lines[j] by {}
        assert(lines[0] == left.wires.pwm && lines[1] == left.wires.in1);
        assert(lines[2] == left.wires.in2 && lines[3] == right.wires.pwm);
        assert(lines[4] == right.wires.in1 && lines[5] == right.wires.in2);
    }
}

/// No step is taken that need not be: a motor has three lines to set, a stop all six, and a timed
/// move all six before its wait and all six behind it.
pub proof fn no_step_too_many(left: Motor, right: Motor, turn: Turn, duty_pct: u8, ms: u64)
    ensures
        left.forward_ops(duty_pct).len() == 3,
        left.reverse_ops(duty_pct).len() == 3,
        left.stop_ops().len() == 3,
        stop_ops(left, right).len() == 6,
        straight_ops(left, right, ms).len() == 13,
        spin_ops(left, right, turn, ms).len() == 13,
        settle_ops(left, right).len() == 7,
        rectangle_ops(left, right, turn).len() == 4 * (13 + 7 + 13 + 7),
        routine_ops(left, right).len() == 1 + 2 * rectangle_ops(left, right, turn).len() + (7 + 13
            + 7 + 6),
{
    lemma_rectangle_legs(left, right, Turn::Left);
    lemma_rectangle_legs(left, right, Turn::Right);
}

} // verus!
