//! The two-wheeled bot: its motors, its indicator LED, and the moves they make together.
use crate::board;
use crate::board::{Board, Duty, Hold, Level, Op};
use crate::motion;
use crate::motion::{Motion, Phase, Turn, Wires};
use crate::tunables::Tunables;
use vstd::prelude::*;

verus! {

/// PWM frequency on the L298N enable lines.
pub const PWM_FREQ_HZ: u32 = 5000;

/// One DC motor behind an L298N channel: a PWM'd enable line (speed) and two direction lines. The
/// lines at (high, low) or (low, high) pick the direction, both low brake.
#[derive(Clone, Copy, Debug, PartialEq, Eq, Structural)]
pub struct Motor {
    pub wires: Wires,
    /// The counts that keep the enable line on all the time.
    pub max_duty: u32,
}

impl Motor {
    /// Whether the duty for `duty_pct` percent can be computed in 32 bits.
    pub open spec fn duty_fits(self, duty_pct: u32) -> bool {
        self.max_duty * duty_pct <= u32::MAX
    }

    /// The duty for `duty_pct` percent, rounded down.
    pub open spec fn duty(self, duty_pct: u32) -> Duty {
        Duty::Counts((self.max_duty * duty_pct / 100) as u32)
    }

    /// The steps that turn the wheel forward.
    pub open spec fn forward_ops(self, duty_pct: u32) -> Seq<Op> {
        motion::wheel_ops(self.wires, Level::High, Level::Low, self.duty(duty_pct))
    }

    /// The steps that turn the wheel backward.
    pub open spec fn reverse_ops(self, duty_pct: u32) -> Seq<Op> {
        motion::wheel_ops(self.wires, Level::Low, Level::High, self.duty(duty_pct))
    }

    /// The steps that brake the wheel.
    pub open spec fn stop_ops(self) -> Seq<Op> {
        motion::wheel_ops(self.wires, Level::Low, Level::Low, Duty::Counts(0))
    }

    /// The steps for a direction: forward above zero, backward below, braked at zero.
    pub open spec fn drive_ops(self, dir: int, duty_pct: u32) -> Seq<Op> {
        if dir > 0 {
            self.forward_ops(duty_pct)
        } else if dir < 0 {
            self.reverse_ops(duty_pct)
        } else {
            self.stop_ops()
        }
    }

    /// Tells whether the duty for `duty_pct` percent can be computed in 32 bits.
    pub fn takes_duty(&self, duty_pct: u32) -> (fits: bool)
        ensures
            fits == self.duty_fits(duty_pct),
    {
        self.max_duty.checked_mul(duty_pct).is_some()
    }

    /// Turns the wheel forward.
    pub fn forward(&self, duty_pct: u32, out: &mut Vec<Op>)
        requires
            self.duty_fits(duty_pct),
        ensures
            final(out)@ == old(out)@ + self.forward_ops(duty_pct),
    {
        out.push(Op::Write { pin: self.wires.in1, level: Level::High });
        out.push(Op::Write { pin: self.wires.in2, level: Level::Low });
        self.set_duty_pct(duty_pct, out);
    }

    /// Turns the wheel backward.
    pub fn reverse(&self, duty_pct: u32, out: &mut Vec<Op>)
        requires
            self.duty_fits(duty_pct),
        ensures
            final(out)@ == old(out)@ + self.reverse_ops(duty_pct),
    {
        out.push(Op::Write { pin: self.wires.in1, level: Level::Low });
        out.push(Op::Write { pin: self.wires.in2, level: Level::High });
        self.set_duty_pct(duty_pct, out);
    }

    /// Brake: direction lines low, enable off.
    pub fn stop(&self, out: &mut Vec<Op>)
        ensures
            final(out)@ == old(out)@ + self.stop_ops(),
    {
        out.push(Op::Write { pin: self.wires.in1, level: Level::Low });
        out.push(Op::Write { pin: self.wires.in2, level: Level::Low });
        out.push(Op::Load { pin: self.wires.pwm, duty: Duty::Counts(0) });
    }

    /// Sets the speed.
    pub fn set_duty_pct(&self, pct: u32, out: &mut Vec<Op>)
        requires
            self.duty_fits(pct),
        ensures
            final(out)@ == old(out)@.push(Op::Load { pin: self.wires.pwm, duty: self.duty(pct) }),
    {
        let counts: u32 = self.max_duty * pct / 100;
        out.push(Op::Load { pin: self.wires.pwm, duty: Duty::Counts(counts) });
    }
}

/// Up to 100 percent the duty is at most the full one, and a higher percentage gives no lower duty.
pub proof fn duty_is_a_share_of_full_duty(motor: Motor, lower_pct: u32, duty_pct: u32)
    requires
        lower_pct <= duty_pct,
        motor.duty_fits(duty_pct),
    ensures
        motor.duty(lower_pct)->Counts_0 <= motor.duty(duty_pct)->Counts_0,
        duty_pct <= 100 ==> motor.duty(duty_pct)->Counts_0 <= motor.max_duty,
{
    let max = motor.max_duty;
    assert(max * lower_pct <= max * duty_pct) by (nonlinear_arith)
        requires
            lower_pct <= duty_pct,
    ;
    if duty_pct <= 100 {
        assert(max * duty_pct <= max * 100) by (nonlinear_arith)
            requires
                duty_pct <= 100,
        ;
    }
    assert(max * lower_pct >= 0) by (nonlinear_arith);
}

/// Both wheels, and the LED that lights whenever the right wheel is commanded to turn.
#[derive(Clone, Copy, Debug, PartialEq, Eq, Structural)]
pub struct Rig {
    pub left: Motor,
    pub right: Motor,
    pub right_led: u8,
}

impl Rig {
    /// No line serves two purposes.
    pub open spec fn well_formed(self) -> bool {
        let l = self.left.wires;
        let r = self.right.wires;
        &&& l.pwm != l.in1 && l.pwm != l.in2 && l.pwm != r.pwm && l.pwm != r.in1 && l.pwm != r.in2
        &&& l.in1 != l.in2 && l.in1 != r.pwm && l.in1 != r.in1 && l.in1 != r.in2
        &&& l.in2 != r.pwm && l.in2 != r.in1 && l.in2 != r.in2
        &&& r.pwm != r.in1 && r.pwm != r.in2 && r.in1 != r.in2
        &&& self.right_led != l.pwm && self.right_led != l.in1 && self.right_led != l.in2
        &&& self.right_led != r.pwm && self.right_led != r.in1 && self.right_led != r.in2
    }

    /// The steps that put the LED at a level.
    pub open spec fn led_ops(self, level: Level) -> Seq<Op> {
        seq![Op::Write { pin: self.right_led, level }]
    }

    /// The steps that brake both wheels.
    pub open spec fn stop_ops(self) -> Seq<Op> {
        self.left.stop_ops() + self.right.stop_ops() + self.led_ops(Level::Low)
    }

    /// The steps for the right wheel: the LED goes on before the wheel turns, and off after it has
    /// been braked.
    pub open spec fn right_ops(self, dir: int, duty_pct: u32) -> Seq<Op> {
        if dir != 0 {
            self.led_ops(Level::High) + self.right.drive_ops(dir, duty_pct)
        } else {
            self.right.stop_ops() + self.led_ops(Level::Low)
        }
    }

    /// The steps for both wheels at once, for a time, and a stop.
    pub open spec fn move_ops(self, left: int, right: int, duty_pct: u32, ms: u32) -> Seq<Op> {
        self.left.drive_ops(left, duty_pct) + self.right_ops(right, duty_pct) + seq![
            Op::Wait { ms: ms as u64 },
        ] + self.stop_ops()
    }

    /// The steps that drive straight ahead for `ms`.
    pub open spec fn straight_ops(self, tunables: Tunables, ms: u32) -> Seq<Op> {
        self.move_ops(1, 1, tunables.drive_duty, ms)
    }

    /// The steps that spin on the spot for `ms`.
    pub open spec fn spin_ops(self, tunables: Tunables, turn: Turn, ms: u32) -> Seq<Op> {
        match turn {
            Turn::Right => self.move_ops(1, -1, tunables.turn_duty, ms),
            Turn::Left => self.move_ops(-1, 1, tunables.turn_duty, ms),
        }
    }

    /// The steps that let the momentum die.
    pub open spec fn settle_ops(self, tunables: Tunables) -> Seq<Op> {
        self.stop_ops() + seq![Op::Wait { ms: tunables.settle_ms as u64 }]
    }

    /// The steps for one leg of the rectangle and the corner behind it.
    pub open spec fn leg_ops(self, tunables: Tunables, turn: Turn, ms: u32) -> Seq<Op> {
        self.straight_ops(tunables, ms) + self.settle_ops(tunables) + self.spin_ops(
            tunables,
            turn,
            tunables.turn_90_ms,
        ) + self.settle_ops(tunables)
    }

    /// The steps for one rectangle.
    pub open spec fn rectangle_ops(self, tunables: Tunables, turn: Turn) -> Seq<Op> {
        self.leg_ops(tunables, turn, tunables.long_leg_ms) + self.leg_ops(
            tunables,
            turn,
            tunables.short_leg_ms,
        ) + self.leg_ops(tunables, turn, tunables.long_leg_ms) + self.leg_ops(
            tunables,
            turn,
            tunables.short_leg_ms,
        )
    }

    /// The steps for the whole routine.
    pub open spec fn routine_ops(self, tunables: Tunables) -> Seq<Op> {
        self.rectangle_ops(tunables, Turn::Right) + self.settle_ops(tunables) + self.spin_ops(
            tunables,
            Turn::Right,
            (2 * tunables.turn_90_ms) as u32,
        ) + self.settle_ops(tunables) + self.rectangle_ops(tunables, Turn::Left) + self.stop_ops()
    }

    /// Whether both motors can be driven at `duty_pct` percent.
    pub open spec fn duty_fits(self, duty_pct: u32) -> bool {
        self.left.duty_fits(duty_pct) && self.right.duty_fits(duty_pct)
    }

    /// Whether a rectangle can be driven: the motors take the speeds.
    pub open spec fn rectangle_fits(self, tunables: Tunables) -> bool {
        self.duty_fits(tunables.drive_duty) && self.duty_fits(tunables.turn_duty)
    }

    /// Whether the routine can be driven: the motors take the speeds, and the time of a half turn
    /// fits 32 bits.
    pub open spec fn routine_fits(self, tunables: Tunables) -> bool {
        self.rectangle_fits(tunables) && 2 * tunables.turn_90_ms <= u32::MAX
    }

    /// The bot as it is wired, for motors with the given full duties.
    pub fn wired(left_max_duty: u32, right_max_duty: u32) -> (rig: Self)
        ensures
            rig.well_formed(),
            rig.left == (Motor {
                wires: Wires { pwm: 0, in1: 1, in2: 10 },
                max_duty: left_max_duty,
            }),
            rig.right == (Motor {
                wires: Wires { pwm: 6, in1: 7, in2: 5 },
                max_duty: right_max_duty,
            }),
            rig.right_led == 3,
    {
        Rig {
            left: Motor { wires: Wires { pwm: 0, in1: 1, in2: 10 }, max_duty: left_max_duty },
            right: Motor { wires: Wires { pwm: 6, in1: 7, in2: 5 }, max_duty: right_max_duty },
            right_led: 3,
        }
    }

    /// Tells whether both motors can be driven at `duty_pct` percent.
    pub fn takes_duty(&self, duty_pct: u32) -> (fits: bool)
        ensures
            fits == self.duty_fits(duty_pct),
    {
        self.left.takes_duty(duty_pct) && self.right.takes_duty(duty_pct)
    }

    /// Tells whether the routine can be driven.
    pub fn takes_routine(&self, tunables: &Tunables) -> (fits: bool)
        ensures
            fits == self.routine_fits(*tunables),
    {
        self.takes_duty(tunables.drive_duty) && self.takes_duty(tunables.turn_duty)
            && tunables.turn_90_ms <= u32::MAX / 2
    }

    /// Brakes both wheels and puts the LED out.
    pub fn stop(&self, out: &mut Vec<Op>)
        ensures
            final(out)@ == old(out)@ + self.stop_ops(),
    {
        self.left.stop(out);
        self.right.stop(out);
        out.push(Op::Write { pin: self.right_led, level: Level::Low });
    }

    /// Turns the left wheel: forward where `dir` is positive, backward where it is negative, not
    /// at all where it is zero.
    pub fn left_drive(&self, dir: i32, duty_pct: u32, out: &mut Vec<Op>)
        requires
            dir != 0 ==> self.left.duty_fits(duty_pct),
        ensures
            final(out)@ == old(out)@ + self.left.drive_ops(dir as int, duty_pct),
    {
        if dir > 0 {
            self.left.forward(duty_pct, out);
        } else if dir < 0 {
            self.left.reverse(duty_pct, out);
        } else {
            self.left.stop(out);
        }
    }

    /// Turns the right wheel as [`Rig::left_drive`] turns the left one, and shows on the LED
    /// whether it is to turn.
    pub fn right_drive(&self, dir: i32, duty_pct: u32, out: &mut Vec<Op>)
        requires
            dir != 0 ==> self.right.duty_fits(duty_pct),
        ensures
            final(out)@ == old(out)@ + self.right_ops(dir as int, duty_pct),
    {
        if dir > 0 {
            out.push(Op::Write { pin: self.right_led, level: Level::High });
            self.right.forward(duty_pct, out);
        } else if dir < 0 {
            out.push(Op::Write { pin: self.right_led, level: Level::High });
            self.right.reverse(duty_pct, out);
        } else {
            self.right.stop(out);
            out.push(Op::Write { pin: self.right_led, level: Level::Low });
        }
    }

    /// Both wheels forward at driving speed for `ms`.
    pub fn straight(&self, tunables: &Tunables, ms: u32, out: &mut Vec<Op>)
        requires
            self.duty_fits(tunables.drive_duty),
        ensures
            final(out)@ == old(out)@ + self.straight_ops(*tunables, ms),
    {
        let duty: u32 = tunables.drive_duty;
        self.left_drive(1, duty, out);
        self.right_drive(1, duty, out);
        out.push(Op::Wait { ms: ms as u64 });
        self.stop(out);
    }

    /// In-place spin: one wheel forward, the other in reverse.
    pub fn spin(&self, tunables: &Tunables, turn: Turn, ms: u32, out: &mut Vec<Op>)
        requires
            self.duty_fits(tunables.turn_duty),
        ensures
            final(out)@ == old(out)@ + self.spin_ops(*tunables, turn, ms),
    {
        let duty: u32 = tunables.turn_duty;
        match turn {
            Turn::Right => {
                self.left_drive(1, duty, out);
                self.right_drive(-1, duty, out);
            },
            Turn::Left => {
                self.left_drive(-1, duty, out);
                self.right_drive(1, duty, out);
            },
        }
        out.push(Op::Wait { ms: ms as u64 });
        self.stop(out);
    }

    /// Brakes and pauses, so that the momentum dies between moves.
    pub fn settle(&self, tunables: &Tunables, out: &mut Vec<Op>)
        ensures
            final(out)@ == old(out)@ + self.settle_ops(*tunables),
    {
        self.stop(out);
        out.push(Op::Wait { ms: tunables.settle_ms as u64 });
    }

    /// One leg and the corner behind it.
    fn drive_leg(&self, tunables: &Tunables, turn: Turn, ms: u32, out: &mut Vec<Op>)
        requires
            self.rectangle_fits(*tunables),
        ensures
            final(out)@ == old(out)@ + self.leg_ops(*tunables, turn, ms),
    {
        self.straight(tunables, ms, out);
        self.settle(tunables, out);
        self.spin(tunables, turn, tunables.turn_90_ms, out);
        self.settle(tunables, out);
    }

    /// One rectangle: long leg, corner, short leg, corner, long leg, corner, short leg, all corners
    /// turning the same way. A last corner brings the bot back to the heading it started with.
    pub fn drive_rectangle(&self, tunables: &Tunables, turn: Turn, out: &mut Vec<Op>)
        requires
            self.rectangle_fits(*tunables),
        ensures
            final(out)@ == old(out)@ + self.rectangle_ops(*tunables, turn),
    {
        self.drive_leg(tunables, turn, tunables.long_leg_ms, out);
        self.drive_leg(tunables, turn, tunables.short_leg_ms, out);
        self.drive_leg(tunables, turn, tunables.long_leg_ms, out);
        self.drive_leg(tunables, turn, tunables.short_leg_ms, out);
    }

    /// A rectangle to the right, a half turn, and a rectangle to the left.
    pub fn drive_full_routine(&self, tunables: &Tunables, out: &mut Vec<Op>)
        requires
            self.routine_fits(*tunables),
        ensures
            final(out)@ == old(out)@ + self.routine_ops(*tunables),
    {
        self.drive_rectangle(tunables, Turn::Right, out);
        self.settle(tunables, out);
        self.spin(tunables, Turn::Right, 2 * tunables.turn_90_ms, out);
        self.settle(tunables, out);
        self.drive_rectangle(tunables, Turn::Left, out);
        self.stop(out);
    }
}

impl Rig {
    /// Both wheels braked with their enable lines off, and the LED out.
    pub open spec fn braked(self, board: Board) -> bool {
        &&& motion::motion(board, self.left.wires) is Brake
        &&& motion::motion(board, self.right.wires) is Brake
        &&& board.duty[self.left.wires.pwm] == Duty::Counts(0)
        &&& board.duty[self.right.wires.pwm] == Duty::Counts(0)
        &&& board.level[self.right_led] == Level::Low
    }

    /// No motor has both direction lines high, and the LED is lit if and only if the right wheel is
    /// commanded to turn.
    pub open spec fn consistent(self, board: Board) -> bool {
        &&& !(motion::motion(board, self.left.wires) is Clash)
        &&& !(motion::motion(board, self.right.wires) is Clash)
        &&& board.level[self.right_led] == Level::High <==> !(motion::motion(
            board,
            self.right.wires,
        ) is Brake)
    }

    /// Whether the bot is consistent in every wait of `ops`, when they start on `board`.
    pub open spec fn consistent_in_waits(self, board: Board, ops: Seq<Op>) -> bool {
        forall|i: int|
            0 <= i < ops.len() && #[trigger] ops[i] is Wait ==> self.consistent(
                board.run(ops.take(i)),
            )
    }

    /// The LED is lit if the right wheel is commanded to turn.
    pub open spec fn lit(self, board: Board) -> bool {
        !(motion::motion(board, self.right.wires) is Brake) ==> board.level[self.right_led]
            == Level::High
    }

    /// Whether the LED is lit whenever the right wheel is commanded to turn, before, between and
    /// after the single steps of `ops`, when they start on `board`.
    pub open spec fn lit_throughout(self, board: Board, ops: Seq<Op>) -> bool {
        forall|i: int| 0 <= i <= ops.len() ==> self.lit(#[trigger] board.run(ops.take(i)))
    }

    /// The phases of `ops` on this rig.
    pub open spec fn phases(self, board: Board, ops: Seq<Op>) -> Seq<Phase> {
        motion::phases(board, self.left.wires, self.right.wires, ops)
    }
}

/// The motion that a direction stands for.
pub open spec fn direction(dir: int) -> Motion {
    if dir > 0 {
        Motion::Forward
    } else if dir < 0 {
        Motion::Reverse
    } else {
        Motion::Brake
    }
}

/// The duty that a motor has in a direction.
pub open spec fn duty_in(motor: Motor, dir: int, duty_pct: u32) -> Duty {
    if dir == 0 {
        Duty::Counts(0)
    } else {
        motor.duty(duty_pct)
    }
}

/// The level of a direction line that is high if and only if `on`.
spec fn line_level(on: bool) -> Level {
    if on {
        Level::High
    } else {
        Level::Low
    }
}

/// What driving one motor does to the board.
proof fn lemma_motor_drive(board: Board, motor: Motor, dir: int, duty_pct: u32)
    ensures
        board.run(motor.drive_ops(dir, duty_pct)) == motion::wheel_set(
            board,
            motor.wires,
            line_level(dir > 0),
            line_level(dir < 0),
            duty_in(motor, dir, duty_pct),
        ),
{
    let duty = duty_in(motor, dir, duty_pct);
    motion::wheel_ops_set_the_wheel(
        board,
        motor.wires,
        line_level(dir > 0),
        line_level(dir < 0),
        duty,
    );
}

/// Driving the left wheel turns it in the direction given, at the speed given, and leaves the
/// right wheel and the LED as they were.
pub proof fn left_drive_turns_left_wheel(rig: Rig, board: Board, dir: int, duty_pct: u32)
    requires
        rig.well_formed(),
    ensures
        ({
            let after = board.run(rig.left.drive_ops(dir, duty_pct));
            &&& motion::motion(after, rig.left.wires) == direction(dir)
            &&& after.duty[rig.left.wires.pwm] == duty_in(rig.left, dir, duty_pct)
            &&& motion::motion(after, rig.right.wires) == motion::motion(board, rig.right.wires)
            &&& after.duty[rig.right.wires.pwm] == board.duty[rig.right.wires.pwm]
            &&& after.level[rig.right_led] == board.level[rig.right_led]
        }),
{
    lemma_motor_drive(board, rig.left, dir, duty_pct);
}

/// Driving the right wheel turns it in the direction given, at the speed given, lights the LED if
/// and only if it is to turn, and leaves the left wheel as it was.
pub proof fn right_drive_turns_right_wheel(rig: Rig, board: Board, dir: int, duty_pct: u32)
    requires
        rig.well_formed(),
    ensures
        ({
            let after = board.run(rig.right_ops(dir, duty_pct));
            &&& motion::motion(after, rig.right.wires) == direction(dir)
            &&& after.duty[rig.right.wires.pwm] == duty_in(rig.right, dir, duty_pct)
            &&& after.level[rig.right_led] == (if dir == 0 {
                Level::Low
            } else {
                Level::High
            })
            &&& motion::motion(after, rig.left.wires) == motion::motion(board, rig.left.wires)
            &&& after.duty[rig.left.wires.pwm] == board.duty[rig.left.wires.pwm]
        }),
{
    let led = Op::Write {
        pin: rig.right_led,
        level: if dir == 0 {
            Level::Low
        } else {
            Level::High
        },
    };
    if dir == 0 {
        board::run_in_parts(board, rig.right.stop_ops(), seq![led]);
        lemma_motor_drive(board, rig.right, dir, duty_pct);
        board::run_one(board.run(rig.right.stop_ops()), led);
    } else {
        board::run_in_parts(board, seq![led], rig.right.drive_ops(dir, duty_pct));
        board::run_one(board, led);
        lemma_motor_drive(board.apply(led), rig.right, dir, duty_pct);
    }
}

/// Whatever the bot was doing, a stop brakes it.
pub proof fn stop_brakes(rig: Rig, board: Board)
    requires
        rig.well_formed(),
    ensures
        rig.braked(board.run(rig.stop_ops())),
{
    let led = Op::Write { pin: rig.right_led, level: Level::Low };
    let left = rig.left.stop_ops();
    let right = rig.right.stop_ops();
    board::run_in_parts(board, left + right, seq![led]);
    board::run_in_parts(board, left, right);
    lemma_motor_drive(board, rig.left, 0, 0);
    lemma_motor_drive(board.run(left), rig.right, 0, 0);
    board::run_one(board.run(left + right), led);
}

/// A braked bot is consistent.
pub proof fn braked_is_consistent(rig: Rig, board: Board)
    requires
        rig.braked(board),
    ensures
        rig.consistent(board),
{
}

/// What holds in the waits of two lists of steps holds in those of the two lists joined.
pub proof fn consistent_in_parts(rig: Rig, board: Board, first: Seq<Op>, second: Seq<Op>)
    requires
        rig.consistent_in_waits(board, first),
        rig.consistent_in_waits(board.run(first), second),
    ensures
        rig.consistent_in_waits(board, first + second),
{
    let ops = first + second;
    assert forall|i: int| 0 <= i < ops.len() && #[trigger] ops[i] is Wait implies rig.consistent(
        board.run(ops.take(i)),
    ) by {
        if i < first.len() {
            assert(first[i] is Wait);
            assert(ops.take(i) == first.take(i));
        } else {
            let k = i - first.len();
            assert(second[k] is Wait);
            assert(ops.take(i) == first + second.take(k));
            board::run_in_parts(board, first, second.take(k));
        }
    }
}

/// A wait finds the bot as it is.
pub proof fn one_wait_is_consistent(rig: Rig, board: Board, ms: u64)
    requires
        rig.consistent(board),
    ensures
        rig.consistent_in_waits(board, seq![Op::Wait { ms }]),
{
    assert(seq![Op::Wait { ms }].take(0) == Seq::<Op>::empty());
}

/// While a timed move lasts, the LED is lit if and only if the right wheel is commanded to turn, and
/// no motor has both direction lines high.
pub proof fn move_is_consistent_in_waits(
    rig: Rig,
    board: Board,
    left: int,
    right: int,
    duty_pct: u32,
    ms: u32,
)
    requires
        rig.well_formed(),
    ensures
        rig.consistent_in_waits(board, rig.move_ops(left, right, duty_pct, ms)),
{
    let a = rig.left.drive_ops(left, duty_pct);
    let b = rig.right_ops(right, duty_pct);
    let c = seq![Op::Wait { ms: ms as u64 }];
    left_drive_turns_left_wheel(rig, board, left, duty_pct);
    right_drive_turns_right_wheel(rig, board.run(a), right, duty_pct);
    board::run_in_parts(board, a, b);
    one_wait_is_consistent(rig, board.run(a + b), ms as u64);
    consistent_in_parts(rig, board, a + b, c);
    consistent_in_parts(rig, board, a + b + c, rig.stop_ops());
}

/// The waits of settling.
proof fn lemma_settle_in_waits(rig: Rig, board: Board, tunables: Tunables)
    requires
        rig.well_formed(),
    ensures
        rig.consistent_in_waits(board, rig.settle_ops(tunables)),
{
    stop_brakes(rig, board);
    one_wait_is_consistent(rig, board.run(rig.stop_ops()), tunables.settle_ms as u64);
    consistent_in_parts(
        rig,
        board,
        rig.stop_ops(),
        seq![Op::Wait { ms: tunables.settle_ms as u64 }],
    );
}

/// The waits of a spin.
proof fn lemma_spin_in_waits(rig: Rig, board: Board, tunables: Tunables, turn: Turn, ms: u32)
    requires
        rig.well_formed(),
    ensures
        rig.consistent_in_waits(board, rig.spin_ops(tunables, turn, ms)),
{
    match turn {
        Turn::Right => move_is_consistent_in_waits(rig, board, 1, -1, tunables.turn_duty, ms),
        Turn::Left => move_is_consistent_in_waits(rig, board, -1, 1, tunables.turn_duty, ms),
    }
}

/// The waits of a leg and its corner.
proof fn lemma_leg_in_waits(rig: Rig, board: Board, tunables: Tunables, turn: Turn, ms: u32)
    requires
        rig.well_formed(),
    ensures
        rig.consistent_in_waits(board, rig.leg_ops(tunables, turn, ms)),
{
    let a = rig.straight_ops(tunables, ms);
    let b = rig.settle_ops(tunables);
    let c = rig.spin_ops(tunables, turn, tunables.turn_90_ms);
    move_is_consistent_in_waits(rig, board, 1, 1, tunables.drive_duty, ms);
    lemma_settle_in_waits(rig, board.run(a), tunables);
    lemma_spin_in_waits(rig, board.run(a + b), tunables, turn, tunables.turn_90_ms);
    lemma_settle_in_waits(rig, board.run(a + b + c), tunables);
    consistent_in_parts(rig, board, a, b);
    consistent_in_parts(rig, board, a + b, c);
    consistent_in_parts(rig, board, a + b + c, b);
}

/// Throughout a rectangle, in every wait, the LED is lit if and only if the right wheel is commanded
/// to turn, and no motor has both direction lines high.
pub proof fn rectangle_is_consistent_in_waits(
    rig: Rig,
    board: Board,
    tunables: Tunables,
    turn: Turn,
)
    requires
        rig.well_formed(),
    ensures
        rig.consistent_in_waits(board, rig.rectangle_ops(tunables, turn)),
{
    let long = rig.leg_ops(tunables, turn, tunables.long_leg_ms);
    let short = rig.leg_ops(tunables, turn, tunables.short_leg_ms);
    lemma_leg_in_waits(rig, board, tunables, turn, tunables.long_leg_ms);
    lemma_leg_in_waits(rig, board.run(long), tunables, turn, tunables.short_leg_ms);
    lemma_leg_in_waits(rig, board.run(long + short), tunables, turn, tunables.long_leg_ms);
    lemma_leg_in_waits(rig, board.run(long + short + long), tunables, turn, tunables.short_leg_ms);
    consistent_in_parts(rig, board, long, short);
    consistent_in_parts(rig, board, long + short, long);
    consistent_in_parts(rig, board, long + short + long, short);
}

/// Throughout the routine, in every wait, the LED is lit if and only if the right wheel is commanded
/// to turn, and no motor has both direction lines high.
pub proof fn routine_is_consistent_in_waits(rig: Rig, board: Board, tunables: Tunables)
    requires
        rig.well_formed(),
    ensures
        rig.consistent_in_waits(board, rig.routine_ops(tunables)),
{
    let a = rig.rectangle_ops(tunables, Turn::Right);
    let b = rig.settle_ops(tunables);
    let half = (2 * tunables.turn_90_ms) as u32;
    let c = rig.spin_ops(tunables, Turn::Right, half);
    let d = rig.rectangle_ops(tunables, Turn::Left);
    rectangle_is_consistent_in_waits(rig, board, tunables, Turn::Right);
    lemma_settle_in_waits(rig, board.run(a), tunables);
    lemma_spin_in_waits(rig, board.run(a + b), tunables, Turn::Right, half);
    lemma_settle_in_waits(rig, board.run(a + b + c), tunables);
    rectangle_is_consistent_in_waits(rig, board.run(a + b + c + b), tunables, Turn::Left);
    consistent_in_parts(rig, board, a, b);
    consistent_in_parts(rig, board, a + b, c);
    consistent_in_parts(rig, board, a + b + c, b);
    consistent_in_parts(rig, board, a + b + c + b, d);
    consistent_in_parts(rig, board, a + b + c + b + d, rig.stop_ops());
}

/// What holds throughout a list of steps holds behind it.
pub proof fn lit_at_the_end(rig: Rig, board: Board, ops: Seq<Op>)
    requires
        rig.lit_throughout(board, ops),
    ensures
        rig.lit(board.run(ops)),
{
    assert(ops.take(ops.len() as int) == ops);
    assert(rig.lit(board.run(ops.take(ops.len() as int))));
}

/// What holds throughout two lists of steps holds throughout the two lists joined.
pub proof fn lit_in_parts(rig: Rig, board: Board, first: Seq<Op>, second: Seq<Op>)
    requires
        rig.lit_throughout(board, first),
        rig.lit_throughout(board.run(first), second),
    ensures
        rig.lit_throughout(board, first + second),
{
    let ops = first + second;
    assert forall|i: int| 0 <= i <= ops.len() implies rig.lit(#[trigger] board.run(ops.take(i))) by {
        if i <= first.len() {
            assert(ops.take(i) == first.take(i));
            assert(rig.lit(board.run(first.take(i))));
        } else {
            let k = i - first.len();
            assert(ops.take(i) == first + second.take(k));
            board::run_in_parts(board, first, second.take(k));
            assert(rig.lit(board.run(first).run(second.take(k))));
        }
    }
}

/// A single step.
proof fn lemma_lit_one(rig: Rig, board: Board, op: Op)
    requires
        rig.lit(board),
        rig.lit(board.apply(op)),
    ensures
        rig.lit_throughout(board, seq![op]),
{
    let ops = seq![op];
    board::run_one(board, op);
    assert(ops.take(0) == Seq::<Op>::empty());
    assert(ops.take(1) == ops);
    assert forall|i: int| 0 <= i <= ops.len() implies rig.lit(#[trigger] board.run(ops.take(i))) by {
        assert(i == 0 || i == 1);
    }
}

/// A wait changes nothing.
pub proof fn lit_in_wait(rig: Rig, board: Board, ms: u64)
    requires
        rig.lit(board),
    ensures
        rig.lit_throughout(board, seq![Op::Wait { ms }]),
{
    lemma_lit_one(rig, board, Op::Wait { ms });
}

/// Setting the lines of one motor: those of the left one, or, of the right one, all low or with the
/// LED lit.
proof fn lemma_lit_wheel(rig: Rig, board: Board, wires: Wires, in1: Level, in2: Level, duty: Duty)
    requires
        rig.well_formed(),
        rig.lit(board),
        wires == rig.left.wires || wires == rig.right.wires,
        wires == rig.right.wires ==> board.level[rig.right_led] == Level::High || (in1 == Level::Low
            && in2 == Level::Low),
    ensures
        rig.lit_throughout(board, motion::wheel_ops(wires, in1, in2, duty)),
{
    let a = Op::Write { pin: wires.in1, level: in1 };
    let b = Op::Write { pin: wires.in2, level: in2 };
    let c = Op::Load { pin: wires.pwm, duty };
    lemma_lit_one(rig, board, a);
    lemma_lit_one(rig, board.apply(a), b);
    lemma_lit_one(rig, board.apply(a).apply(b), c);
    board::run_one(board, a);
    lit_in_parts(rig, board, seq![a], seq![b]);
    board::run_in_parts(board, seq![a], seq![b]);
    board::run_one(board.apply(a), b);
    lit_in_parts(rig, board, seq![a] + seq![b], seq![c]);
    assert(seq![a] + seq![b] + seq![c] == motion::wheel_ops(wires, in1, in2, duty));
}

/// The LED is lit whenever the right wheel is commanded to turn, at every single step of driving the
/// left wheel.
pub proof fn left_drive_keeps_lit(rig: Rig, board: Board, dir: int, duty_pct: u32)
    requires
        rig.well_formed(),
        rig.lit(board),
    ensures
        rig.lit_throughout(board, rig.left.drive_ops(dir, duty_pct)),
{
    lemma_lit_wheel(
        rig,
        board,
        rig.left.wires,
        line_level(dir > 0),
        line_level(dir < 0),
        duty_in(rig.left, dir, duty_pct),
    );
}

/// The LED is lit whenever the right wheel is commanded to turn, at every single step of driving the
/// right wheel.
pub proof fn right_drive_keeps_lit(rig: Rig, board: Board, dir: int, duty_pct: u32)
    requires
        rig.well_formed(),
        rig.lit(board),
    ensures
        rig.lit_throughout(board, rig.right_ops(dir, duty_pct)),
{
    let led = Op::Write { pin: rig.right_led, level: line_level(dir != 0) };
    let wheel = rig.right.drive_ops(dir, duty_pct);
    let duty = duty_in(rig.right, dir, duty_pct);
    let r = rig.right.wires;
    if dir != 0 {
        lemma_lit_one(rig, board, led);
        board::run_one(board, led);
        lemma_lit_wheel(rig, board.apply(led), r, line_level(dir > 0), line_level(dir < 0), duty);
        lit_in_parts(rig, board, seq![led], wheel);
    } else {
        lemma_lit_wheel(rig, board, r, Level::Low, Level::Low, duty);
        lemma_motor_drive(board, rig.right, dir, duty_pct);
        lemma_lit_one(rig, board.run(wheel), led);
        lit_in_parts(rig, board, wheel, seq![led]);
    }
}

/// The LED is lit whenever the right wheel is commanded to turn, at every single step of a stop.
pub proof fn stop_keeps_lit(rig: Rig, board: Board)
    requires
        rig.well_formed(),
        rig.lit(board),
    ensures
        rig.lit_throughout(board, rig.stop_ops()),
{
    let left = rig.left.stop_ops();
    let right = rig.right.stop_ops() + rig.led_ops(Level::Low);
    left_drive_keeps_lit(rig, board, 0, 0);
    lit_at_the_end(rig, board, left);
    right_drive_keeps_lit(rig, board.run(left), 0, 0);
    lit_in_parts(rig, board, left, right);
    assert(left + right == rig.stop_ops());
}

/// The LED is lit whenever the right wheel is commanded to turn, at every single step of a timed
/// move.
pub proof fn move_keeps_lit(
    rig: Rig,
    board: Board,
    left: int,
    right: int,
    duty_pct: u32,
    ms: u32,
)
    requires
        rig.well_formed(),
        rig.lit(board),
    ensures
        rig.lit_throughout(board, rig.move_ops(left, right, duty_pct, ms)),
{
    let a = rig.left.drive_ops(left, duty_pct);
    let b = rig.right_ops(right, duty_pct);
    let c = seq![Op::Wait { ms: ms as u64 }];
    left_drive_keeps_lit(rig, board, left, duty_pct);
    lit_at_the_end(rig, board, a);
    right_drive_keeps_lit(rig, board.run(a), right, duty_pct);
    lit_in_parts(rig, board, a, b);
    lit_at_the_end(rig, board, a + b);
    lit_in_wait(rig, board.run(a + b), ms as u64);
    lit_in_parts(rig, board, a + b, c);
    lit_at_the_end(rig, board, a + b + c);
    stop_keeps_lit(rig, board.run(a + b + c));
    lit_in_parts(rig, board, a + b + c, rig.stop_ops());
}

/// Settling, step by step.
proof fn lemma_settle_lit(rig: Rig, board: Board, tunables: Tunables)
    requires
        rig.well_formed(),
        rig.lit(board),
    ensures
        rig.lit_throughout(board, rig.settle_ops(tunables)),
{
    let wait = Op::Wait { ms: tunables.settle_ms as u64 };
    stop_keeps_lit(rig, board);
    lit_at_the_end(rig, board, rig.stop_ops());
    lit_in_wait(rig, board.run(rig.stop_ops()), tunables.settle_ms as u64);
    lit_in_parts(rig, board, rig.stop_ops(), seq![wait]);
}

/// A spin, step by step.
proof fn lemma_spin_lit(rig: Rig, board: Board, tunables: Tunables, turn: Turn, ms: u32)
    requires
        rig.well_formed(),
        rig.lit(board),
    ensures
        rig.lit_throughout(board, rig.spin_ops(tunables, turn, ms)),
{
    match turn {
        Turn::Right => move_keeps_lit(rig, board, 1, -1, tunables.turn_duty, ms),
        Turn::Left => move_keeps_lit(rig, board, -1, 1, tunables.turn_duty, ms),
    }
}

/// A leg and its corner, step by step.
proof fn lemma_leg_lit(rig: Rig, board: Board, tunables: Tunables, turn: Turn, ms: u32)
    requires
        rig.well_formed(),
        rig.lit(board),
    ensures
        rig.lit_throughout(board, rig.leg_ops(tunables, turn, ms)),
{
    let a = rig.straight_ops(tunables, ms);
    let b = rig.settle_ops(tunables);
    let c = rig.spin_ops(tunables, turn, tunables.turn_90_ms);
    move_keeps_lit(rig, board, 1, 1, tunables.drive_duty, ms);
    lit_at_the_end(rig, board, a);
    lemma_settle_lit(rig, board.run(a), tunables);
    lit_in_parts(rig, board, a, b);
    lit_at_the_end(rig, board, a + b);
    lemma_spin_lit(rig, board.run(a + b), tunables, turn, tunables.turn_90_ms);
    lit_in_parts(rig, board, a + b, c);
    lit_at_the_end(rig, board, a + b + c);
    lemma_settle_lit(rig, board.run(a + b + c), tunables);
    lit_in_parts(rig, board, a + b + c, b);
}

/// The LED is lit whenever the right wheel is commanded to turn, at every single step of a
/// rectangle.
pub proof fn rectangle_keeps_lit(rig: Rig, board: Board, tunables: Tunables, turn: Turn)
    requires
        rig.well_formed(),
        rig.lit(board),
    ensures
        rig.lit_throughout(board, rig.rectangle_ops(tunables, turn)),
{
    let long = rig.leg_ops(tunables, turn, tunables.long_leg_ms);
    let short = rig.leg_ops(tunables, turn, tunables.short_leg_ms);
    lemma_leg_lit(rig, board, tunables, turn, tunables.long_leg_ms);
    lit_at_the_end(rig, board, long);
    lemma_leg_lit(rig, board.run(long), tunables, turn, tunables.short_leg_ms);
    lit_in_parts(rig, board, long, short);
    lit_at_the_end(rig, board, long + short);
    lemma_leg_lit(rig, board.run(long + short), tunables, turn, tunables.long_leg_ms);
    lit_in_parts(rig, board, long + short, long);
    lit_at_the_end(rig, board, long + short + long);
    lemma_leg_lit(rig, board.run(long + short + long), tunables, turn, tunables.short_leg_ms);
    lit_in_parts(rig, board, long + short + long, short);
}

/// The LED is lit whenever the right wheel is commanded to turn, at every single step of the
/// routine.
pub proof fn routine_keeps_lit(rig: Rig, board: Board, tunables: Tunables)
    requires
        rig.well_formed(),
        rig.lit(board),
    ensures
        rig.lit_throughout(board, rig.routine_ops(tunables)),
{
    let a = rig.rectangle_ops(tunables, Turn::Right);
    let b = rig.settle_ops(tunables);
    let half = (2 * tunables.turn_90_ms) as u32;
    let c = rig.spin_ops(tunables, Turn::Right, half);
    let d = rig.rectangle_ops(tunables, Turn::Left);
    rectangle_keeps_lit(rig, board, tunables, Turn::Right);
    lit_at_the_end(rig, board, a);
    lemma_settle_lit(rig, board.run(a), tunables);
    lit_in_parts(rig, board, a, b);
    lit_at_the_end(rig, board, a + b);
    lemma_spin_lit(rig, board.run(a + b), tunables, Turn::Right, half);
    lit_in_parts(rig, board, a + b, c);
    lit_at_the_end(rig, board, a + b + c);
    lemma_settle_lit(rig, board.run(a + b + c), tunables);
    lit_in_parts(rig, board, a + b + c, b);
    lit_at_the_end(rig, board, a + b + c + b);
    rectangle_keeps_lit(rig, board.run(a + b + c + b), tunables, Turn::Left);
    lit_in_parts(rig, board, a + b + c + b, d);
    lit_at_the_end(rig, board, a + b + c + b + d);
    stop_keeps_lit(rig, board.run(a + b + c + b + d));
    lit_in_parts(rig, board, a + b + c + b + d, rig.stop_ops());
}

/// Setting lines takes no time.
proof fn lemma_no_phases(rig: Rig, board: Board, dir: int, duty_pct: u32)
    ensures
        rig.phases(board, rig.left.drive_ops(dir, duty_pct)) == Seq::<Phase>::empty(),
        rig.phases(board, rig.right_ops(dir, duty_pct)) == Seq::<Phase>::empty(),
        rig.phases(board, rig.stop_ops()) == Seq::<Phase>::empty(),
{
    let l = rig.left.wires;
    let r = rig.right.wires;
    motion::no_wait_no_phase(board, l, r, rig.left.drive_ops(dir, duty_pct));
    motion::no_wait_no_phase(board, l, r, rig.right_ops(dir, duty_pct));
    motion::no_wait_no_phase(board, l, r, rig.stop_ops());
}

/// A timed move lasts for its time with the wheels turning as given, and ends braked.
pub proof fn move_lasts_and_brakes(
    rig: Rig,
    board: Board,
    left: int,
    right: int,
    duty_pct: u32,
    ms: u32,
)
    requires
        rig.well_formed(),
    ensures
        rig.phases(board, rig.move_ops(left, right, duty_pct, ms)) == seq![
            Phase { left: direction(left), right: direction(right), ms: ms as nat },
        ],
        rig.braked(board.run(rig.move_ops(left, right, duty_pct, ms))),
{
    let l = rig.left.wires;
    let r = rig.right.wires;
    let a = rig.left.drive_ops(left, duty_pct);
    let b = rig.right_ops(right, duty_pct);
    let c = seq![Op::Wait { ms: ms as u64 }];
    let d = rig.stop_ops();
    left_drive_turns_left_wheel(rig, board, left, duty_pct);
    right_drive_turns_right_wheel(rig, board.run(a), right, duty_pct);
    board::run_in_parts(board, a, b);
    lemma_no_phases(rig, board, left, duty_pct);
    lemma_no_phases(rig, board.run(a), right, duty_pct);
    lemma_no_phases(rig, board.run(a + b + c), 0, 0);
    motion::phases_in_parts(board, l, r, a, b);
    motion::phases_in_parts(board, l, r, a + b, c);
    motion::phases_in_parts(board, l, r, a + b + c, d);
    motion::one_wait_one_phase(board.run(a + b), l, r, ms as u64);
    board::run_in_parts(board, a + b + c, d);
    stop_brakes(rig, board.run(a + b + c));
}

/// Driving straight turns both wheels forward for the time given, and ends braked.
pub proof fn straight_goes_straight(rig: Rig, board: Board, tunables: Tunables, ms: u32)
    requires
        rig.well_formed(),
    ensures
        rig.phases(board, rig.straight_ops(tunables, ms)) == seq![
            motion::straight_phase(ms as nat),
        ],
        rig.braked(board.run(rig.straight_ops(tunables, ms))),
{
    move_lasts_and_brakes(rig, board, 1, 1, tunables.drive_duty, ms);
}

/// A spin turns one wheel forward and the other back for the time given, and ends braked.
pub proof fn spin_turns_on_the_spot(
    rig: Rig,
    board: Board,
    tunables: Tunables,
    turn: Turn,
    ms: u32,
)
    requires
        rig.well_formed(),
    ensures
        rig.phases(board, rig.spin_ops(tunables, turn, ms)) == seq![
            motion::spin_phase(turn, ms as nat),
        ],
        rig.braked(board.run(rig.spin_ops(tunables, turn, ms))),
{
    match turn {
        Turn::Right => move_lasts_and_brakes(rig, board, 1, -1, tunables.turn_duty, ms),
        Turn::Left => move_lasts_and_brakes(rig, board, -1, 1, tunables.turn_duty, ms),
    }
}

/// Settling keeps both wheels braked for the time set, and leaves them so.
pub proof fn settle_rests(rig: Rig, board: Board, tunables: Tunables)
    requires
        rig.well_formed(),
    ensures
        rig.phases(board, rig.settle_ops(tunables)) == seq![
            motion::rest_phase(tunables.settle_ms as nat),
        ],
        rig.braked(board.run(rig.settle_ops(tunables))),
{
    let l = rig.left.wires;
    let r = rig.right.wires;
    let wait = Op::Wait { ms: tunables.settle_ms as u64 };
    stop_brakes(rig, board);
    lemma_no_phases(rig, board, 0, 0);
    board::run_in_parts(board, rig.stop_ops(), seq![wait]);
    board::run_one(board.run(rig.stop_ops()), wait);
    motion::phases_in_parts(board, l, r, rig.stop_ops(), seq![wait]);
    motion::one_wait_one_phase(board.run(rig.stop_ops()), l, r, tunables.settle_ms as u64);
}

/// The phases of a leg.
proof fn lemma_leg(rig: Rig, board: Board, tunables: Tunables, turn: Turn, ms: u32)
    requires
        rig.well_formed(),
    ensures
        rig.phases(board, rig.leg_ops(tunables, turn, ms)) == motion::leg_phases(
            turn,
            ms as nat,
            tunables.turn_90_ms as nat,
            tunables.settle_ms as nat,
        ),
        rig.braked(board.run(rig.leg_ops(tunables, turn, ms))),
{
    let l = rig.left.wires;
    let r = rig.right.wires;
    let a = rig.straight_ops(tunables, ms);
    let b = rig.settle_ops(tunables);
    let c = rig.spin_ops(tunables, turn, tunables.turn_90_ms);
    straight_goes_straight(rig, board, tunables, ms);
    settle_rests(rig, board.run(a), tunables);
    spin_turns_on_the_spot(rig, board.run(a + b), tunables, turn, tunables.turn_90_ms);
    settle_rests(rig, board.run(a + b + c), tunables);
    motion::phases_in_parts(board, l, r, a, b);
    motion::phases_in_parts(board, l, r, a + b, c);
    motion::phases_in_parts(board, l, r, a + b + c, b);
    board::run_in_parts(board, a + b + c, b);
}

/// Driving a rectangle is what a rectangle is, leg for leg and corner for corner, and ends braked.
pub proof fn rectangle_is_driven(rig: Rig, board: Board, tunables: Tunables, turn: Turn)
    requires
        rig.well_formed(),
    ensures
        rig.phases(board, rig.rectangle_ops(tunables, turn)) == motion::rectangle_phases(
            turn,
            tunables.long_leg_ms as nat,
            tunables.short_leg_ms as nat,
            tunables.turn_90_ms as nat,
            tunables.settle_ms as nat,
        ),
        rig.braked(board.run(rig.rectangle_ops(tunables, turn))),
{
    let l = rig.left.wires;
    let r = rig.right.wires;
    let long = rig.leg_ops(tunables, turn, tunables.long_leg_ms);
    let short = rig.leg_ops(tunables, turn, tunables.short_leg_ms);
    lemma_leg(rig, board, tunables, turn, tunables.long_leg_ms);
    lemma_leg(rig, board.run(long), tunables, turn, tunables.short_leg_ms);
    lemma_leg(rig, board.run(long + short), tunables, turn, tunables.long_leg_ms);
    lemma_leg(rig, board.run(long + short + long), tunables, turn, tunables.short_leg_ms);
    motion::phases_in_parts(board, l, r, long, short);
    motion::phases_in_parts(board, l, r, long + short, long);
    motion::phases_in_parts(board, l, r, long + short + long, short);
    board::run_in_parts(board, long + short + long, short);
}

/// The routine is a rectangle to the right, a half turn and the mirror-image rectangle to the
/// left, and ends braked.
pub proof fn routine_is_driven(rig: Rig, board: Board, tunables: Tunables)
    requires
        rig.well_formed(),
        rig.routine_fits(tunables),
    ensures
        rig.phases(board, rig.routine_ops(tunables)) == motion::routine_phases(
            tunables.long_leg_ms as nat,
            tunables.short_leg_ms as nat,
            tunables.turn_90_ms as nat,
            tunables.settle_ms as nat,
        ),
        rig.braked(board.run(rig.routine_ops(tunables))),
{
    let l = rig.left.wires;
    let r = rig.right.wires;
    let a = rig.rectangle_ops(tunables, Turn::Right);
    let b = rig.settle_ops(tunables);
    let half = (2 * tunables.turn_90_ms) as u32;
    let c = rig.spin_ops(tunables, Turn::Right, half);
    let d = rig.rectangle_ops(tunables, Turn::Left);
    let e = rig.stop_ops();
    rectangle_is_driven(rig, board, tunables, Turn::Right);
    settle_rests(rig, board.run(a), tunables);
    spin_turns_on_the_spot(rig, board.run(a + b), tunables, Turn::Right, half);
    settle_rests(rig, board.run(a + b + c), tunables);
    rectangle_is_driven(rig, board.run(a + b + c + b), tunables, Turn::Left);
    stop_brakes(rig, board.run(a + b + c + b + d));
    lemma_no_phases(rig, board.run(a + b + c + b + d), 0, 0);
    motion::phases_in_parts(board, l, r, a, b);
    motion::phases_in_parts(board, l, r, a + b, c);
    motion::phases_in_parts(board, l, r, a + b + c, b);
    motion::phases_in_parts(board, l, r, a + b + c + b, d);
    motion::phases_in_parts(board, l, r, a + b + c + b + d, e);
    board::run_in_parts(board, a + b + c + b + d, e);
}

/// By dead reckoning a rectangle brings the bot back to where it started and to the heading it
/// started with.
pub proof fn rectangle_returns(
    rig: Rig,
    board: Board,
    tunables: Tunables,
    turn: Turn,
    pose: motion::Pose,
)
    requires
        rig.well_formed(),
        tunables.turn_90_ms > 0,
    ensures
        ({
            let end = motion::travel(
                pose,
                rig.phases(board, rig.rectangle_ops(tunables, turn)),
                tunables.turn_90_ms as nat,
            );
            &&& end.along == pose.along
            &&& end.across == pose.across
            &&& end.quarters % 4 == pose.quarters % 4
        }),
{
    rectangle_is_driven(rig, board, tunables, turn);
    motion::rectangle_closes(
        pose,
        turn,
        tunables.long_leg_ms as nat,
        tunables.short_leg_ms as nat,
        tunables.turn_90_ms as nat,
        tunables.settle_ms as nat,
    );
}

/// The rectangle to the left is the mirror image of the one to the right, and the one to the right
/// that of the one to the left.
pub proof fn rectangles_mirror(
    rig: Rig,
    board: Board,
    other_board: Board,
    tunables: Tunables,
    turn: Turn,
)
    requires
        rig.well_formed(),
    ensures
        rig.phases(board, rig.rectangle_ops(tunables, motion::opposite(turn))) == motion::mirrored(
            rig.phases(other_board, rig.rectangle_ops(tunables, turn)),
        ),
{
    rectangle_is_driven(rig, board, tunables, motion::opposite(turn));
    rectangle_is_driven(rig, other_board, tunables, turn);
    motion::rectangles_are_mirror_images(
        turn,
        tunables.long_leg_ms as nat,
        tunables.short_leg_ms as nat,
        tunables.turn_90_ms as nat,
        tunables.settle_ms as nat,
    );
}

/// The duty of a motor is the whole number of counts just at or below its share of the full duty.
pub proof fn duty_is_rounded_down(motor: Motor, duty_pct: u32)
    requires
        motor.max_duty * duty_pct <= u32::MAX,
    ensures
        ({
            let counts = motor.duty(duty_pct)->Counts_0;
            &&& motor.duty(duty_pct) is Counts
            &&& 100 * counts <= motor.max_duty * duty_pct < 100 * counts + 100
        }),
{
    assert(motor.max_duty * duty_pct >= 0) by (nonlinear_arith);
}

/// The speeds that a motor takes are those whose product with the full duty fits 32 bits.
pub proof fn motors_take_what_fits(rig: Rig, tunables: Tunables, duty_pct: u32)
    ensures
        rig.left.duty_fits(duty_pct) <==> rig.left.max_duty * duty_pct <= 0xffff_ffff,
        rig.right.duty_fits(duty_pct) <==> rig.right.max_duty * duty_pct <= 0xffff_ffff,
        rig.duty_fits(duty_pct) <==> rig.left.max_duty * duty_pct <= 0xffff_ffff
            && rig.right.max_duty * duty_pct <= 0xffff_ffff,
        rig.routine_fits(tunables) <==> rig.left.max_duty * tunables.drive_duty <= 0xffff_ffff
            && rig.right.max_duty * tunables.drive_duty <= 0xffff_ffff && rig.left.max_duty
            * tunables.turn_duty <= 0xffff_ffff && rig.right.max_duty * tunables.turn_duty
            <= 0xffff_ffff && tunables.turn_90_ms <= 0x7fff_ffff,
        rig.rectangle_fits(tunables) <==> rig.left.max_duty * tunables.drive_duty <= 0xffff_ffff
            && rig.right.max_duty * tunables.drive_duty <= 0xffff_ffff && rig.left.max_duty
            * tunables.turn_duty <= 0xffff_ffff && rig.right.max_duty * tunables.turn_duty
            <= 0xffff_ffff,
{
}

impl Rig {
    /// The board with every line of the bot set: the direction lines and the counts of the left
    /// motor, those of the right one, and the LED.
    pub open spec fn posed(
        self,
        board: Board,
        left_in1: Level,
        left_in2: Level,
        left_counts: u32,
        right_in1: Level,
        right_in2: Level,
        right_counts: u32,
        led: Level,
    ) -> Board {
        Board {
            level: board.level.insert(self.left.wires.in1, left_in1).insert(
                self.left.wires.in2,
                left_in2,
            ).insert(self.right.wires.in1, right_in1).insert(
                self.right.wires.in2,
                right_in2,
            ).insert(self.right_led, led),
            duty: board.duty.insert(self.left.wires.pwm, Duty::Counts(left_counts)).insert(
                self.right.wires.pwm,
                Duty::Counts(right_counts),
            ),
        }
    }

    /// The board with both wheels braked, their enable lines off, and the LED out.
    pub open spec fn at_rest(self, board: Board) -> Board {
        self.posed(board, Level::Low, Level::Low, 0, Level::Low, Level::Low, 0, Level::Low)
    }
}

/// Setting every line of the bot sets each to what is given for it, and no other line.
pub proof fn posed_line_by_line(
    rig: Rig,
    board: Board,
    left_in1: Level,
    left_in2: Level,
    left_counts: u32,
    right_in1: Level,
    right_in2: Level,
    right_counts: u32,
    led: Level,
)
    requires
        rig.well_formed(),
    ensures
        ({
            let l = rig.left.wires;
            let r = rig.right.wires;
            let after = rig.posed(
                board,
                left_in1,
                left_in2,
                left_counts,
                right_in1,
                right_in2,
                right_counts,
                led,
            );
            &&& after.level[l.in1] == left_in1
            &&& after.level[l.in2] == left_in2
            &&& after.duty[l.pwm] == Duty::Counts(left_counts)
            &&& after.level[r.in1] == right_in1
            &&& after.level[r.in2] == right_in2
            &&& after.duty[r.pwm] == Duty::Counts(right_counts)
            &&& after.level[rig.right_led] == led
            &&& forall|pin: u8|
                pin != l.in1 && pin != l.in2 && pin != r.in1 && pin != r.in2 && pin != rig.right_led
                    ==> #[trigger] after.level[pin] == board.level[pin]
            &&& forall|pin: u8|
                pin != l.pwm && pin != r.pwm ==> #[trigger] after.duty[pin] == board.duty[pin]
        }),
{
}

/// A bot at rest has every direction line low, both enable lines off, and the LED out.
pub proof fn at_rest_line_by_line(rig: Rig, board: Board)
    requires
        rig.well_formed(),
    ensures
        ({
            let after = rig.at_rest(board);
            &&& after.level[rig.left.wires.in1] == Level::Low
            &&& after.level[rig.left.wires.in2] == Level::Low
            &&& after.duty[rig.left.wires.pwm] == Duty::Counts(0)
            &&& after.level[rig.right.wires.in1] == Level::Low
            &&& after.level[rig.right.wires.in2] == Level::Low
            &&& after.duty[rig.right.wires.pwm] == Duty::Counts(0)
            &&& after.level[rig.right_led] == Level::Low
        }),
{
}

/// The steps of a single motor set its own three lines, and no other, in no time.
pub proof fn motor_sets_its_own_lines(board: Board, motor: Motor, duty_pct: u32)
    ensures
        board.run(motor.forward_ops(duty_pct)) == (Board {
            level: board.level.insert(motor.wires.in1, Level::High).insert(
                motor.wires.in2,
                Level::Low,
            ),
            duty: board.duty.insert(
                motor.wires.pwm,
                Duty::Counts((motor.max_duty * duty_pct / 100) as u32),
            ),
        }),
        board.run(motor.reverse_ops(duty_pct)) == (Board {
            level: board.level.insert(motor.wires.in1, Level::Low).insert(
                motor.wires.in2,
                Level::High,
            ),
            duty: board.duty.insert(
                motor.wires.pwm,
                Duty::Counts((motor.max_duty * duty_pct / 100) as u32),
            ),
        }),
        board.run(motor.stop_ops()) == (Board {
            level: board.level.insert(motor.wires.in1, Level::Low).insert(
                motor.wires.in2,
                Level::Low,
            ),
            duty: board.duty.insert(motor.wires.pwm, Duty::Counts(0)),
        }),
        board::holds(board, motor.forward_ops(duty_pct)) == Seq::<Hold>::empty(),
        board::holds(board, motor.reverse_ops(duty_pct)) == Seq::<Hold>::empty(),
        board::holds(board, motor.stop_ops()) == Seq::<Hold>::empty(),
{
    lemma_motor_drive(board, motor, 1, duty_pct);
    lemma_motor_drive(board, motor, -1, duty_pct);
    lemma_motor_drive(board, motor, 0, duty_pct);
    board::no_wait_no_hold(board, motor.forward_ops(duty_pct));
    board::no_wait_no_hold(board, motor.reverse_ops(duty_pct));
    board::no_wait_no_hold(board, motor.stop_ops());
}

/// Driving the left wheel sets its direction lines by the sign, its counts by the percentage, or
/// brakes it at zero, and leaves every other line as it was. It takes no time.
pub proof fn left_drive_sets_left_lines(rig: Rig, board: Board, dir: int, duty_pct: u32)
    ensures
        board.run(rig.left.drive_ops(dir, duty_pct)) == (Board {
            level: board.level.insert(
                rig.left.wires.in1,
                if dir > 0 {
                    Level::High
                } else {
                    Level::Low
                },
            ).insert(
                rig.left.wires.in2,
                if dir < 0 {
                    Level::High
                } else {
                    Level::Low
                },
            ),
            duty: board.duty.insert(
                rig.left.wires.pwm,
                Duty::Counts(
                    if dir == 0 {
                        0u32
                    } else {
                        (rig.left.max_duty * duty_pct / 100) as u32
                    },
                ),
            ),
        }),
        board::holds(board, rig.left.drive_ops(dir, duty_pct)) == Seq::<Hold>::empty(),
{
    lemma_motor_drive(board, rig.left, dir, duty_pct);
    motor_sets_its_own_lines(board, rig.left, duty_pct);
}

/// Driving the right wheel sets its lines as driving the left one sets those of the left, lights the
/// LED if and only if the wheel is to turn, and leaves every other line as it was. It takes no time.
pub proof fn right_drive_sets_right_lines(rig: Rig, board: Board, dir: int, duty_pct: u32)
    requires
        rig.well_formed(),
    ensures
        board.run(rig.right_ops(dir, duty_pct)) == (Board {
            level: board.level.insert(
                rig.right.wires.in1,
                if dir > 0 {
                    Level::High
                } else {
                    Level::Low
                },
            ).insert(
                rig.right.wires.in2,
                if dir < 0 {
                    Level::High
                } else {
                    Level::Low
                },
            ).insert(
                rig.right_led,
                if dir == 0 {
                    Level::Low
                } else {
                    Level::High
                },
            ),
            duty: board.duty.insert(
                rig.right.wires.pwm,
                Duty::Counts(
                    if dir == 0 {
                        0u32
                    } else {
                        (rig.right.max_duty * duty_pct / 100) as u32
                    },
                ),
            ),
        }),
        board::holds(board, rig.right_ops(dir, duty_pct)) == Seq::<Hold>::empty(),
{
    let led = Op::Write { pin: rig.right_led, level: line_level(dir != 0) };
    let after = board.run(rig.right_ops(dir, duty_pct));
    let level = board.level.insert(rig.right.wires.in1, line_level(dir > 0)).insert(
        rig.right.wires.in2,
        line_level(dir < 0),
    ).insert(rig.right_led, line_level(dir != 0));
    if dir == 0 {
        board::run_in_parts(board, rig.right.stop_ops(), seq![led]);
        lemma_motor_drive(board, rig.right, dir, duty_pct);
        board::run_one(board.run(rig.right.stop_ops()), led);
    } else {
        board::run_in_parts(board, seq![led], rig.right.drive_ops(dir, duty_pct));
        board::run_one(board, led);
        lemma_motor_drive(board.apply(led), rig.right, dir, duty_pct);
    }
    assert(after.level == level);
    board::no_wait_no_hold(board, rig.right_ops(dir, duty_pct));
}

/// A stop puts every line of the bot to rest, whatever it was doing, leaves every other line as it
/// was, and takes no time.
pub proof fn stop_sets_every_line(rig: Rig, board: Board)
    requires
        rig.well_formed(),
    ensures
        board.run(rig.stop_ops()) == rig.at_rest(board),
        board::holds(board, rig.stop_ops()) == Seq::<Hold>::empty(),
{
    let left = rig.left.drive_ops(0, 0);
    let right = rig.right_ops(0, 0);
    left_drive_sets_left_lines(rig, board, 0, 0);
    right_drive_sets_right_lines(rig, board.run(left), 0, 0);
    board::run_in_parts(board, left, right);
    assert(left + right == rig.stop_ops());
    assert(board.run(rig.stop_ops()).level == rig.at_rest(board).level);
    assert(board.run(rig.stop_ops()).duty == rig.at_rest(board).duty);
    board::no_wait_no_hold(board, rig.stop_ops());
}

/// The speed of a wheel changes only once its direction lines stand as they are to stand.
pub proof fn speed_follows_direction(rig: Rig, board: Board, dir: int, duty_pct: u32, i: int)
    requires
        rig.well_formed(),
        0 <= i <= rig.left.drive_ops(dir, duty_pct).len(),
    ensures
        ({
            let then = board.run(rig.left.drive_ops(dir, duty_pct).take(i));
            ||| then.duty == board.duty
            ||| then.level[rig.left.wires.in1] == (if dir > 0 {
                Level::High
            } else {
                Level::Low
            }) && then.level[rig.left.wires.in2] == (if dir < 0 {
                Level::High
            } else {
                Level::Low
            })
        }),
{
    lemma_speed_follows(board, rig.left, dir, duty_pct, i);
}

/// The speed of the right wheel too changes only once its direction lines stand as they are to
/// stand.
pub proof fn right_speed_follows_direction(rig: Rig, board: Board, dir: int, duty_pct: u32, i: int)
    requires
        rig.well_formed(),
        0 <= i <= rig.right_ops(dir, duty_pct).len(),
    ensures
        ({
            let then = board.run(rig.right_ops(dir, duty_pct).take(i));
            ||| then.duty == board.duty
            ||| then.level[rig.right.wires.in1] == (if dir > 0 {
                Level::High
            } else {
                Level::Low
            }) && then.level[rig.right.wires.in2] == (if dir < 0 {
                Level::High
            } else {
                Level::Low
            })
        }),
{
    let ops = rig.right_ops(dir, duty_pct);
    let wheel = rig.right.drive_ops(dir, duty_pct);
    if dir == 0 {
        if i <= 3 {
            assert(ops.take(i) == wheel.take(i));
            lemma_speed_follows(board, rig.right, dir, duty_pct, i);
        } else {
            assert(ops.take(i) == ops);
            right_drive_sets_right_lines(rig, board, dir, duty_pct);
        }
    } else {
        let led = seq![Op::Write { pin: rig.right_led, level: Level::High }];
        if i == 0 {
            assert(ops.take(i) == Seq::<Op>::empty());
        } else {
            assert(ops.take(i) == led + wheel.take(i - 1));
            board::run_in_parts(board, led, wheel.take(i - 1));
            board::run_one(board, led[0]);
            lemma_speed_follows(board.run(led), rig.right, dir, duty_pct, i - 1);
        }
    }
}

/// The steps of one motor, one by one.
proof fn lemma_speed_follows(board: Board, motor: Motor, dir: int, duty_pct: u32, i: int)
    requires
        motor.wires.in1 != motor.wires.in2,
        0 <= i <= motor.drive_ops(dir, duty_pct).len(),
    ensures
        ({
            let then = board.run(motor.drive_ops(dir, duty_pct).take(i));
            ||| then.duty == board.duty
            ||| then.level[motor.wires.in1] == line_level(dir > 0) && then.level[motor.wires.in2]
                == line_level(dir < 0)
        }),
{
    let ops = motor.drive_ops(dir, duty_pct);
    if i == 0 {
        assert(ops.take(i) == Seq::<Op>::empty());
    } else if i == 1 {
        assert(ops.take(i) == seq![ops[0]]);
        board::run_one(board, ops[0]);
    } else if i == 2 {
        assert(ops.take(i) == seq![ops[0]].push(ops[1]));
        board::run_one(board, ops[0]);
        board::run_one_more(board, seq![ops[0]], ops[1]);
    } else {
        assert(ops.take(i) == ops);
        lemma_motor_drive(board, motor, dir, duty_pct);
    }
}

/// What was set before does not show once every line has been set.
proof fn lemma_posed_again(
    rig: Rig,
    board: Board,
    before: Board,
    left_in1: Level,
    left_in2: Level,
    left_counts: u32,
    right_in1: Level,
    right_in2: Level,
    right_counts: u32,
    led: Level,
)
    requires
        rig.well_formed(),
        before == rig.at_rest(board),
    ensures
        rig.posed(
            before,
            left_in1,
            left_in2,
            left_counts,
            right_in1,
            right_in2,
            right_counts,
            led,
        ) == rig.posed(
            board,
            left_in1,
            left_in2,
            left_counts,
            right_in1,
            right_in2,
            right_counts,
            led,
        ),
{
    let a = rig.posed(
        before,
        left_in1,
        left_in2,
        left_counts,
        right_in1,
        right_in2,
        right_counts,
        led,
    );
    let b = rig.posed(
        board,
        left_in1,
        left_in2,
        left_counts,
        right_in1,
        right_in2,
        right_counts,
        led,
    );
    assert(a.level == b.level);
    assert(a.duty == b.duty);
}

/// The counts of a motor in a direction.
spec fn counts_in(motor: Motor, dir: int, duty_pct: u32) -> u32 {
    if dir == 0 {
        0
    } else {
        (motor.max_duty * duty_pct / 100) as u32
    }
}

/// The board in the wait of a timed move, and behind it.
proof fn lemma_move_holds(
    rig: Rig,
    board: Board,
    left: int,
    right: int,
    duty_pct: u32,
    ms: u32,
)
    requires
        rig.well_formed(),
    ensures
        board::holds(board, rig.move_ops(left, right, duty_pct, ms)) == seq![
            Hold {
                board: rig.posed(
                    board,
                    line_level(left > 0),
                    line_level(left < 0),
                    counts_in(rig.left, left, duty_pct),
                    line_level(right > 0),
                    line_level(right < 0),
                    counts_in(rig.right, right, duty_pct),
                    line_level(right != 0),
                ),
                ms: ms as nat,
            },
        ],
        board.run(rig.move_ops(left, right, duty_pct, ms)) == rig.at_rest(board),
{
    let a = rig.left.drive_ops(left, duty_pct);
    let b = rig.right_ops(right, duty_pct);
    let c = seq![Op::Wait { ms: ms as u64 }];
    let d = rig.stop_ops();
    left_drive_sets_left_lines(rig, board, left, duty_pct);
    right_drive_sets_right_lines(rig, board.run(a), right, duty_pct);
    board::run_in_parts(board, a, b);
    board::holds_in_parts(board, a, b);
    let posed = rig.posed(
        board,
        line_level(left > 0),
        line_level(left < 0),
        counts_in(rig.left, left, duty_pct),
        line_level(right > 0),
        line_level(right < 0),
        counts_in(rig.right, right, duty_pct),
        line_level(right != 0),
    );
    assert(board.run(a + b).level == posed.level);
    assert(board.run(a + b).duty == posed.duty);
    board::one_wait_one_hold(posed, ms as u64);
    board::run_in_parts(board, a + b, c);
    board::holds_in_parts(board, a + b, c);
    stop_sets_every_line(rig, posed);
    board::run_in_parts(board, a + b + c, d);
    board::holds_in_parts(board, a + b + c, d);
    assert(rig.at_rest(posed).level == rig.at_rest(board).level);
    assert(rig.at_rest(posed).duty == rig.at_rest(board).duty);
    assert(board::holds(board, a + b + c + d) == seq![Hold { board: posed, ms: ms as nat }]);
}

/// Driving straight is one wait for the time given, with both wheels forward at driving speed and
/// the LED lit. Behind it the bot is at rest.
pub proof fn straight_holds(rig: Rig, board: Board, tunables: Tunables, ms: u32)
    requires
        rig.well_formed(),
    ensures
        board::holds(board, rig.straight_ops(tunables, ms)) == seq![
            Hold {
                board: rig.posed(
                    board,
                    Level::High,
                    Level::Low,
                    (rig.left.max_duty * tunables.drive_duty / 100) as u32,
                    Level::High,
                    Level::Low,
                    (rig.right.max_duty * tunables.drive_duty / 100) as u32,
                    Level::High,
                ),
                ms: ms as nat,
            },
        ],
        board.run(rig.straight_ops(tunables, ms)) == rig.at_rest(board),
{
    lemma_move_holds(rig, board, 1, 1, tunables.drive_duty, ms);
}

/// A spin is one wait for the time given, with the wheels against each other at turning speed, the
/// left one forward in a turn to the right, and the LED lit. Behind it the bot is at rest.
pub proof fn spin_holds(rig: Rig, board: Board, tunables: Tunables, turn: Turn, ms: u32)
    requires
        rig.well_formed(),
    ensures
        board::holds(board, rig.spin_ops(tunables, turn, ms)) == seq![
            Hold {
                board: match turn {
                    Turn::Right => rig.posed(
                        board,
                        Level::High,
                        Level::Low,
                        (rig.left.max_duty * tunables.turn_duty / 100) as u32,
                        Level::Low,
                        Level::High,
                        (rig.right.max_duty * tunables.turn_duty / 100) as u32,
                        Level::High,
                    ),
                    Turn::Left => rig.posed(
                        board,
                        Level::Low,
                        Level::High,
                        (rig.left.max_duty * tunables.turn_duty / 100) as u32,
                        Level::High,
                        Level::Low,
                        (rig.right.max_duty * tunables.turn_duty / 100) as u32,
                        Level::High,
                    ),
                },
                ms: ms as nat,
            },
        ],
        board.run(rig.spin_ops(tunables, turn, ms)) == rig.at_rest(board),
{
    match turn {
        Turn::Right => lemma_move_holds(rig, board, 1, -1, tunables.turn_duty, ms),
        Turn::Left => lemma_move_holds(rig, board, -1, 1, tunables.turn_duty, ms),
    }
}

/// Settling is one wait for the time set, at rest.
pub proof fn settle_holds(rig: Rig, board: Board, tunables: Tunables)
    requires
        rig.well_formed(),
    ensures
        board::holds(board, rig.settle_ops(tunables)) == seq![
            Hold { board: rig.at_rest(board), ms: tunables.settle_ms as nat },
        ],
        board.run(rig.settle_ops(tunables)) == rig.at_rest(board),
{
    let wait = seq![Op::Wait { ms: tunables.settle_ms as u64 }];
    stop_sets_every_line(rig, board);
    board::one_wait_one_hold(rig.at_rest(board), tunables.settle_ms as u64);
    board::run_in_parts(board, rig.stop_ops(), wait);
    board::holds_in_parts(board, rig.stop_ops(), wait);
    assert(Seq::<Hold>::empty() + board::holds(rig.at_rest(board), wait) == board::holds(
        rig.at_rest(board),
        wait,
    ));
}

/// The board while the bot drives straight.
spec fn going(rig: Rig, board: Board, tunables: Tunables) -> Board {
    rig.posed(
        board,
        Level::High,
        Level::Low,
        (rig.left.max_duty * tunables.drive_duty / 100) as u32,
        Level::High,
        Level::Low,
        (rig.right.max_duty * tunables.drive_duty / 100) as u32,
        Level::High,
    )
}

/// The board while the bot turns.
spec fn turning(rig: Rig, board: Board, tunables: Tunables, turn: Turn) -> Board {
    let left = (rig.left.max_duty * tunables.turn_duty / 100) as u32;
    let right = (rig.right.max_duty * tunables.turn_duty / 100) as u32;
    match turn {
        Turn::Right => rig.posed(
            board,
            Level::High,
            Level::Low,
            left,
            Level::Low,
            Level::High,
            right,
            Level::High,
        ),
        Turn::Left => rig.posed(
            board,
            Level::Low,
            Level::High,
            left,
            Level::High,
            Level::Low,
            right,
            Level::High,
        ),
    }
}

/// Once at rest, the bot goes, turns and rests as it does from the start.
proof fn lemma_from_rest(rig: Rig, board: Board, tunables: Tunables, turn: Turn)
    requires
        rig.well_formed(),
    ensures
        going(rig, rig.at_rest(board), tunables) == going(rig, board, tunables),
        turning(rig, rig.at_rest(board), tunables, turn) == turning(rig, board, tunables, turn),
        rig.at_rest(rig.at_rest(board)) == rig.at_rest(board),
{
    let rest = rig.at_rest(board);
    let drive_left = (rig.left.max_duty * tunables.drive_duty / 100) as u32;
    let drive_right = (rig.right.max_duty * tunables.drive_duty / 100) as u32;
    let turn_left = (rig.left.max_duty * tunables.turn_duty / 100) as u32;
    let turn_right = (rig.right.max_duty * tunables.turn_duty / 100) as u32;
    let hi = Level::High;
    let lo = Level::Low;
    lemma_posed_again(rig, board, rest, hi, lo, drive_left, hi, lo, drive_right, hi);
    lemma_posed_again(rig, board, rest, hi, lo, turn_left, lo, hi, turn_right, hi);
    lemma_posed_again(rig, board, rest, lo, hi, turn_left, hi, lo, turn_right, hi);
    lemma_posed_again(rig, board, rest, lo, lo, 0, lo, lo, 0, lo);
}

/// The waits of a leg and its corner.
proof fn lemma_leg_holds(rig: Rig, board: Board, tunables: Tunables, turn: Turn, ms: u32)
    requires
        rig.well_formed(),
    ensures
        board::holds(board, rig.leg_ops(tunables, turn, ms)) == seq![
            Hold { board: going(rig, board, tunables), ms: ms as nat },
            Hold { board: rig.at_rest(board), ms: tunables.settle_ms as nat },
            Hold { board: turning(rig, board, tunables, turn), ms: tunables.turn_90_ms as nat },
            Hold { board: rig.at_rest(board), ms: tunables.settle_ms as nat },
        ],
        board.run(rig.leg_ops(tunables, turn, ms)) == rig.at_rest(board),
{
    let rest = rig.at_rest(board);
    let a = rig.straight_ops(tunables, ms);
    let b = rig.settle_ops(tunables);
    let c = rig.spin_ops(tunables, turn, tunables.turn_90_ms);
    lemma_from_rest(rig, board, tunables, turn);
    straight_holds(rig, board, tunables, ms);
    settle_holds(rig, rest, tunables);
    spin_holds(rig, rest, tunables, turn, tunables.turn_90_ms);
    board::run_in_parts(board, a, b);
    board::run_in_parts(board, a + b, c);
    board::run_in_parts(board, a + b + c, b);
    board::holds_in_parts(board, a, b);
    board::holds_in_parts(board, a + b, c);
    board::holds_in_parts(board, a + b + c, b);
}

/// A rectangle, wait for wait: a long leg, a corner, a short leg, a corner, a long leg, a corner, a
/// short leg and a last corner, with a rest behind each of these. The legs are driven with both
/// wheels forward at driving speed, and the corners turned on the spot at turning speed, all the
/// same way. Behind it the bot is at rest.
pub proof fn rectangle_holds(rig: Rig, board: Board, tunables: Tunables, turn: Turn)
    requires
        rig.well_formed(),
    ensures
        ({
            let go = rig.posed(
                board,
                Level::High,
                Level::Low,
                (rig.left.max_duty * tunables.drive_duty / 100) as u32,
                Level::High,
                Level::Low,
                (rig.right.max_duty * tunables.drive_duty / 100) as u32,
                Level::High,
            );
            let corner = match turn {
                Turn::Right => rig.posed(
                    board,
                    Level::High,
                    Level::Low,
                    (rig.left.max_duty * tunables.turn_duty / 100) as u32,
                    Level::Low,
                    Level::High,
                    (rig.right.max_duty * tunables.turn_duty / 100) as u32,
                    Level::High,
                ),
                Turn::Left => rig.posed(
                    board,
                    Level::Low,
                    Level::High,
                    (rig.left.max_duty * tunables.turn_duty / 100) as u32,
                    Level::High,
                    Level::Low,
                    (rig.right.max_duty * tunables.turn_duty / 100) as u32,
                    Level::High,
                ),
            };
            let rest = rig.at_rest(board);
            board::holds(board, rig.rectangle_ops(tunables, turn)) == seq![
                Hold { board: go, ms: tunables.long_leg_ms as nat },
                Hold { board: rest, ms: tunables.settle_ms as nat },
                Hold { board: corner, ms: tunables.turn_90_ms as nat },
                Hold { board: rest, ms: tunables.settle_ms as nat },
                Hold { board: go, ms: tunables.short_leg_ms as nat },
                Hold { board: rest, ms: tunables.settle_ms as nat },
                Hold { board: corner, ms: tunables.turn_90_ms as nat },
                Hold { board: rest, ms: tunables.settle_ms as nat },
                Hold { board: go, ms: tunables.long_leg_ms as nat },
                Hold { board: rest, ms: tunables.settle_ms as nat },
                Hold { board: corner, ms: tunables.turn_90_ms as nat },
                Hold { board: rest, ms: tunables.settle_ms as nat },
                Hold { board: go, ms: tunables.short_leg_ms as nat },
                Hold { board: rest, ms: tunables.settle_ms as nat },
                Hold { board: corner, ms: tunables.turn_90_ms as nat },
                Hold { board: rest, ms: tunables.settle_ms as nat },
            ]
        }),
        board.run(rig.rectangle_ops(tunables, turn)) == rig.at_rest(board),
{
    let rest = rig.at_rest(board);
    let long = rig.leg_ops(tunables, turn, tunables.long_leg_ms);
    let short = rig.leg_ops(tunables, turn, tunables.short_leg_ms);
    lemma_from_rest(rig, board, tunables, turn);
    lemma_leg_holds(rig, board, tunables, turn, tunables.long_leg_ms);
    lemma_leg_holds(rig, rest, tunables, turn, tunables.short_leg_ms);
    lemma_leg_holds(rig, rest, tunables, turn, tunables.long_leg_ms);
    board::run_in_parts(board, long, short);
    board::run_in_parts(board, long + short, long);
    board::run_in_parts(board, long + short + long, short);
    board::holds_in_parts(board, long, short);
    board::holds_in_parts(board, long + short, long);
    board::holds_in_parts(board, long + short + long, short);
}

/// The routine, wait for wait: a rectangle to the right, a rest, a half turn to the right at turning
/// speed that takes two quarter turns' time, a rest, and a rectangle to the left. Behind it the bot
/// is at rest.
pub proof fn routine_holds(rig: Rig, board: Board, tunables: Tunables)
    requires
        rig.well_formed(),
        2 * tunables.turn_90_ms <= u32::MAX,
    ensures
        ({
            let half_turn = rig.posed(
                board,
                Level::High,
                Level::Low,
                (rig.left.max_duty * tunables.turn_duty / 100) as u32,
                Level::Low,
                Level::High,
                (rig.right.max_duty * tunables.turn_duty / 100) as u32,
                Level::High,
            );
            board::holds(board, rig.routine_ops(tunables)) == board::holds(
                board,
                rig.rectangle_ops(tunables, Turn::Right),
            ) + seq![
                Hold { board: rig.at_rest(board), ms: tunables.settle_ms as nat },
                Hold { board: half_turn, ms: 2 * tunables.turn_90_ms as nat },
                Hold { board: rig.at_rest(board), ms: tunables.settle_ms as nat },
            ] + board::holds(board, rig.rectangle_ops(tunables, Turn::Left))
        }),
        board.run(rig.routine_ops(tunables)) == rig.at_rest(board),
{
    let rest = rig.at_rest(board);
    let a = rig.rectangle_ops(tunables, Turn::Right);
    let b = rig.settle_ops(tunables);
    let half = (2 * tunables.turn_90_ms) as u32;
    let c = rig.spin_ops(tunables, Turn::Right, half);
    let d = rig.rectangle_ops(tunables, Turn::Left);
    let e = rig.stop_ops();
    lemma_from_rest(rig, board, tunables, Turn::Right);
    lemma_from_rest(rig, board, tunables, Turn::Left);
    rectangle_holds(rig, board, tunables, Turn::Right);
    settle_holds(rig, rest, tunables);
    spin_holds(rig, rest, tunables, Turn::Right, half);
    rectangle_holds(rig, rest, tunables, Turn::Left);
    rectangle_holds(rig, board, tunables, Turn::Left);
    stop_sets_every_line(rig, rest);
    board::run_in_parts(board, a, b);
    board::run_in_parts(board, a + b, c);
    board::run_in_parts(board, a + b + c, b);
    board::run_in_parts(board, a + b + c + b, d);
    board::run_in_parts(board, a + b + c + b + d, e);
    board::holds_in_parts(board, a, b);
    board::holds_in_parts(board, a + b, c);
    board::holds_in_parts(board, a + b + c, b);
    board::holds_in_parts(board, a + b + c + b, d);
    board::holds_in_parts(board, a + b + c + b + d, e);
    assert(board::holds(rest, d) == board::holds(board, d));
}

/// Steps that each find the board as they would leave it never change it.
proof fn lemma_seamless(board: Board, ops: Seq<Op>, i: int)
    requires
        forall|k: int| 0 <= k < ops.len() ==> board.apply(#[trigger] ops[k]) == board,
        0 <= i <= ops.len(),
    ensures
        board.run(ops.take(i)) == board,
    decreases i,
{
    if i > 0 {
        lemma_seamless(board, ops, i - 1);
        assert(ops.take(i).drop_last() == ops.take(i - 1));
        assert(ops.take(i).last() == ops[i - 1]);
    }
}

/// What is told again what it is told already never does anything else in between: not a single step
/// of driving a wheel as it is driven, or of stopping a bot at rest, changes a line.
pub proof fn telling_again_is_seamless(rig: Rig, board: Board, dir: int, duty_pct: u32, i: int)
    requires
        rig.well_formed(),
    ensures
        ({
            let left = rig.left.drive_ops(dir, duty_pct);
            let right = rig.right_ops(dir, duty_pct);
            let stop = rig.stop_ops();
            &&& board.run(left) == board && 0 <= i <= left.len() ==> board.run(left.take(i))
                == board
            &&& board.run(right) == board && 0 <= i <= right.len() ==> board.run(right.take(i))
                == board
            &&& board.run(stop) == board && 0 <= i <= stop.len() ==> board.run(stop.take(i))
                == board
        }),
{
    let left = rig.left.drive_ops(dir, duty_pct);
    let right = rig.right_ops(dir, duty_pct);
    let stop = rig.stop_ops();
    left_drive_sets_left_lines(rig, board, dir, duty_pct);
    right_drive_sets_right_lines(rig, board, dir, duty_pct);
    stop_sets_every_line(rig, board);
    if board.run(left) == board && 0 <= i <= left.len() {
        lemma_lines_stand(board, left);
        lemma_seamless(board, left, i);
    }
    if board.run(right) == board && 0 <= i <= right.len() {
        lemma_lines_stand(board, right);
        lemma_seamless(board, right, i);
    }
    if board.run(stop) == board && 0 <= i <= stop.len() {
        lemma_lines_stand(board, stop);
        lemma_seamless(board, stop, i);
    }
}

/// Steps that set no line twice, and leave the board as it was, each find it as they would leave it.
proof fn lemma_lines_stand(board: Board, ops: Seq<Op>)
    requires
        board.run(ops) == board,
        forall|j: int, k: int|
            0 <= j < k < ops.len() ==> match (#[trigger] ops[j], #[trigger] ops[k]) {
                (Op::Write { pin: a, .. }, Op::Write { pin: b, .. }) => a != b,
                (Op::Load { pin: a, .. }, Op::Load { pin: b, .. }) => a != b,
                _ => true,
            },
    ensures
        forall|k: int| 0 <= k < ops.len() ==> board.apply(#[trigger] ops[k]) == board,
{
    assert forall|k: int| 0 <= k < ops.len() implies board.apply(#[trigger] ops[k]) == board by {
        lemma_line_stays(board, ops, k);
        let after = board.apply(ops[k]);
        assert(after.level == board.level);
        assert(after.duty == board.duty);
    }
}

/// What a step sets is still so behind steps that do not set that line again.
proof fn lemma_line_stays(board: Board, ops: Seq<Op>, k: int)
    requires
        0 <= k < ops.len(),
        forall|j: int|
            k < j < ops.len() ==> match (ops[k], #[trigger] ops[j]) {
                (Op::Write { pin: a, .. }, Op::Write { pin: b, .. }) => a != b,
                (Op::Load { pin: a, .. }, Op::Load { pin: b, .. }) => a != b,
                _ => true,
            },
    ensures
        ({
            let after = board.run(ops);
            match ops[k] {
                Op::Write { pin, level } => after.level.contains_key(pin) && after.level[pin]
                    == level,
                Op::Load { pin, duty } => after.duty.contains_key(pin) && after.duty[pin] == duty,
                Op::Wait { .. } => true,
            }
        }),
    decreases ops.len(),
{
    if k < ops.len() - 1 {
        let earlier = ops.drop_last();
        assert forall|j: int| k < j < earlier.len() implies match (earlier[k], #[trigger] earlier[j]) {
            (Op::Write { pin: a, .. }, Op::Write { pin: b, .. }) => a != b,
            (Op::Load { pin: a, .. }, Op::Load { pin: b, .. }) => a != b,
            _ => true,
        } by {
            assert(earlier[j] == ops[j]);
        }
        lemma_line_stays(board, earlier, k);
        assert(ops.last() == ops[ops.len() - 1]);
    }
}

/// A bot is well-formed if and only if its seven lines are seven different ones.
pub proof fn well_formed_by_its_lines(rig: Rig)
    ensures
        rig.well_formed() <==> seq![
            rig.left.wires.pwm,
            rig.left.wires.in1,
            rig.left.wires.in2,
            rig.right.wires.pwm,
            rig.right.wires.in1,
            rig.right.wires.in2,
            rig.right_led,
        ].no_duplicates(),
{
    let lines = seq![
        rig.left.wires.pwm,
        rig.left.wires.in1,
        rig.left.wires.in2,
        rig.right.wires.pwm,
        rig.right.wires.in1,
        rig.right.wires.in2,
        rig.right_led,
    ];
    if lines.no_duplicates() {
        assert forall|i: int, j: int| 0 <= i < j < 7 implies #[trigger] lines[i] != #[trigger] lines[j] by {}
        assert(lines[0] == rig.left.wires.pwm && lines[1] == rig.left.wires.in1);
        assert(lines[2] == rig.left.wires.in2 && lines[3] == rig.right.wires.pwm);
        assert(lines[4] == rig.right.wires.in1 && lines[5] == rig.right.wires.in2);
        assert(lines[6] == rig.right_led);
    }
}

/// No step is taken that need not be: a motor has three lines to set, the right wheel its LED as
/// well, a stop all seven, and a timed move all seven before its wait and all seven behind it.
pub proof fn no_step_too_many(
    rig: Rig,
    tunables: Tunables,
    turn: Turn,
    dir: int,
    duty_pct: u32,
    ms: u32,
)
    ensures
        rig.left.drive_ops(dir, duty_pct).len() == 3,
        rig.right_ops(dir, duty_pct).len() == 4,
        rig.stop_ops().len() == 7,
        rig.straight_ops(tunables, ms).len() == 15,
        rig.spin_ops(tunables, turn, ms).len() == 15,
        rig.settle_ops(tunables).len() == 8,
        rig.rectangle_ops(tunables, turn).len() == 4 * (15 + 8 + 15 + 8),
        rig.routine_ops(tunables).len() == 2 * rig.rectangle_ops(tunables, turn).len() + (8 + 15 + 8
            + 7),
{
}

} // verus!
