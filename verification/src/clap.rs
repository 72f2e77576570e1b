//! Telling from two microphones where a clap came from, and showing it on one LED.
use crate::board;
use crate::board::{Board, Hold, Level, Op};
use vstd::prelude::*;

verus! {

/// Spacing between the two microphones.
pub const MIC_SPACING_CM: u32 = 5;

/// Up to this difference between the two arrivals there is no telling which microphone was truly
/// first.
pub const CENTER_DEADBAND_US: u64 = 60;

/// After a clap, everything is ignored for this long, so that its echoes do not count as claps.
pub const BLANKING_MS: u64 = 200;

/// How long the second microphone is waited for once the first has fired.
pub const PAIR_TIMEOUT_MS: u64 = 50;

/// The LED's pulse for a clap in the middle.
pub const PULSE_MS: u64 = 600;

/// How long the LED is on in a blink.
pub const BLINK_ON_MS: u64 = 120;

/// How long the LED is off after a blink.
pub const BLINK_OFF_MS: u64 = 150;

/// Where a clap came from.
#[derive(Clone, Copy, Debug, PartialEq, Eq, Structural)]
pub enum Side {
    Left,
    Right,
    Center,
}

/// The ticks from one time to a later one, as `embassy_time::Instant::duration_since` has them: the
/// difference of the two tick counts. That function panics where the second time is the earlier.
#[verifier::external_body]
fn ticks_between(earlier: u64, later: u64) -> (ticks: u64)
    requires
        earlier <= later,
    ensures
        ticks == later - earlier,
{
    let earlier = embassy_time::Instant::from_ticks(earlier);
    let later = embassy_time::Instant::from_ticks(later);
    later.duration_since(earlier).as_ticks()
}

/// A span of ticks in microseconds, as `embassy_time::Duration::as_micros` has it: the clock is
/// built for a million ticks a second, so that a tick is a microsecond.
#[verifier::external_body]
fn ticks_as_micros(ticks: u64) -> (us: u64)
    ensures
        us == ticks,
{
    embassy_time::Duration::from_ticks(ticks).as_micros()
}

/// A clap that one microphone has heard: which one, and at which tick of the clock.
#[derive(Clone, Copy, Debug, PartialEq, Eq, Structural)]
pub struct Heard {
    pub near: Side,
    pub at: u64,
}

impl Heard {
    /// The near side is one of the two microphones.
    pub open spec fn well_formed(self) -> bool {
        self.near != Side::Center
    }

    /// The clap that the left microphone, or else the right one, heard first.
    pub fn first(left_first: bool, at: u64) -> (heard: Heard)
        ensures
            heard.well_formed(),
            heard.near == (if left_first {
                Side::Left
            } else {
                Side::Right
            }),
            heard.at == at,
    {
        if left_first {
            Heard { near: Side::Left, at }
        } else {
            Heard { near: Side::Right, at }
        }
    }

    /// Whether it is the right microphone that has yet to hear the clap.
    pub fn awaits_right(&self) -> (right: bool)
        ensures
            right == (self.near == Side::Left),
    {
        match self.near {
            Side::Left => true,
            _ => false,
        }
    }

    /// The side that a clap is put down to: the middle where the other microphone heard it within
    /// the deadband, and else the near side, also where the other microphone never heard it.
    pub open spec fn side(self, other: Option<u64>) -> Side {
        match other {
            Some(at) => if at - self.at <= CENTER_DEADBAND_US {
                Side::Center
            } else {
                self.near
            },
            None => self.near,
        }
    }

    /// The microseconds from the first arrival to the second, if there was a second. `other` is when
    /// the other microphone heard the clap, if it did before the time was up.
    pub fn delta_us(&self, other: Option<u64>) -> (us: Option<u64>)
        requires
            other is Some ==> self.at <= other->0,
        ensures
            us is Some <==> other is Some,
            us is Some ==> us->0 == other->0 - self.at,
    {
        match other {
            Some(at) => Some(ticks_as_micros(ticks_between(self.at, at))),
            None => None,
        }
    }

    /// Decides where the clap came from, by when the other microphone heard it.
    pub fn locate(&self, other: Option<u64>) -> (side: Side)
        requires
            other is Some ==> self.at <= other->0,
        ensures
            side == self.side(other),
    {
        decide(self.near, self.delta_us(other))
    }

    /// Decides where the clap came from, shows it on the LED, and ignores its echoes.
    pub fn resolve(&self, other: Option<u64>, led: u8, out: &mut Vec<Op>) -> (side: Side)
        requires
            other is Some ==> self.at <= other->0,
        ensures
            side == self.side(other),
            final(out)@ == old(out)@ + report_ops(led, side) + seq![Op::Wait { ms: BLANKING_MS }],
    {
        let side = self.locate(other);
        report(led, side, out);
        out.push(Op::Wait { ms: BLANKING_MS });
        side
    }
}

/// Decides from the near side and the microseconds to the second arrival, if there was one.
pub fn decide(near: Side, delta_us: Option<u64>) -> (side: Side)
    ensures
        side == (if delta_us is Some && delta_us->0 <= CENTER_DEADBAND_US {
            Side::Center
        } else {
            near
        }),
{
    match delta_us {
        Some(delta) => if delta <= CENTER_DEADBAND_US {
            Side::Center
        } else {
            near
        },
        None => near,
    }
}

/// The steps for one pulse of the LED.
pub open spec fn pulse_ops(led: u8, ms: u64) -> Seq<Op> {
    seq![
        Op::Write { pin: led, level: Level::High },
        Op::Wait { ms },
        Op::Write { pin: led, level: Level::Low },
    ]
}

/// The steps for `count` blinks of the LED.
pub open spec fn blink_ops(led: u8, count: nat) -> Seq<Op>
    decreases count,
{
    if count == 0 {
        seq![]
    } else {
        blink_ops(led, (count - 1) as nat) + pulse_ops(led, BLINK_ON_MS) + seq![
            Op::Wait { ms: BLINK_OFF_MS },
        ]
    }
}

/// The steps that show a side: one blink for left, two for right, a long pulse for the middle.
pub open spec fn report_ops(led: u8, side: Side) -> Seq<Op> {
    match side {
        Side::Left => blink_ops(led, 1),
        Side::Right => blink_ops(led, 2),
        Side::Center => pulse_ops(led, PULSE_MS),
    }
}

/// Shows a side on the LED:
///   left   -> 1 blink
///   right  -> 2 blinks
///   center -> 1 long solid pulse
pub fn report(led: u8, side: Side, out: &mut Vec<Op>)
    ensures
        final(out)@ == old(out)@ + report_ops(led, side),
{
    let ghost start = out@;
    let blinks: u32 = match side {
        Side::Left => 1,
        Side::Right => 2,
        Side::Center => {
            out.push(Op::Write { pin: led, level: Level::High });
            out.push(Op::Wait { ms: PULSE_MS });
            out.push(Op::Write { pin: led, level: Level::Low });
            return ;
        },
    };
    let mut done: u32 = 0;
    while done < blinks
        invariant
            done <= blinks,
            out@ == start + blink_ops(led, done as nat),
        decreases blinks - done,
    {
        out.push(Op::Write { pin: led, level: Level::High });
        out.push(Op::Wait { ms: BLINK_ON_MS });
        out.push(Op::Write { pin: led, level: Level::Low });
        out.push(Op::Wait { ms: BLINK_OFF_MS });
        done = done + 1;
    }
}

/// The same side seen from the other microphone.
pub open spec fn swapped(side: Side) -> Side {
    match side {
        Side::Left => Side::Right,
        Side::Right => Side::Left,
        Side::Center => Side::Center,
    }
}

/// Neither side is favoured: with the microphones exchanged, the same arrivals are put down to the
/// other side, or to the middle as before.
pub proof fn sides_are_judged_alike(heard: Heard, other: Option<u64>)
    requires
        heard.well_formed(),
    ensures
        (Heard { near: swapped(heard.near), at: heard.at }).side(other) == swapped(
            heard.side(other),
        ),
{
}

/// A clap is put down to the middle only where both microphones heard it within the deadband, and
/// never to the side that heard it later.
pub proof fn later_side_is_never_named(heard: Heard, other: Option<u64>)
    requires
        heard.well_formed(),
    ensures
        heard.side(other) == heard.near || heard.side(other) == Side::Center,
        heard.side(other) == Side::Center <==> other is Some && other->0 - heard.at
            <= CENTER_DEADBAND_US,
{
}

/// How many steps the blinks take.
proof fn lemma_blink_len(led: u8, count: nat)
    ensures
        blink_ops(led, count).len() == 4 * count,
    decreases count,
{
    if count > 0 {
        lemma_blink_len(led, (count - 1) as nat);
    }
}

/// No two sides are shown alike.
pub proof fn reports_differ(led: u8, a: Side, b: Side)
    ensures
        report_ops(led, a) == report_ops(led, b) ==> a == b,
{
    lemma_blink_len(led, 1);
    lemma_blink_len(led, 2);
    assert(pulse_ops(led, PULSE_MS).len() == 3);
}

/// A report leaves the LED out.
pub proof fn report_ends_dark(board: Board, led: u8, side: Side)
    ensures
        board.run(report_ops(led, side)).level[led] == Level::Low,
{
    match side {
        Side::Left => lemma_blink_dark(board, led, 1),
        Side::Right => lemma_blink_dark(board, led, 2),
        Side::Center => {
            let ops = pulse_ops(led, PULSE_MS);
            board::run_three(board, ops[0], ops[1], ops[2]);
        },
    }
}

/// A blink leaves the LED out.
proof fn lemma_blink_dark(board: Board, led: u8, count: nat)
    requires
        count > 0,
    ensures
        board.run(blink_ops(led, count)).level[led] == Level::Low,
{
    let before = blink_ops(led, (count - 1) as nat);
    let ops = pulse_ops(led, BLINK_ON_MS);
    let wait = Op::Wait { ms: BLINK_OFF_MS };
    board::run_in_parts(board, before, ops);
    board::run_three(board.run(before), ops[0], ops[1], ops[2]);
    board::run_in_parts(board, before + ops, seq![wait]);
    board::run_one(board.run(before + ops), wait);
}

/// The board with the LED lit, or out, and everything else as it was.
pub open spec fn shown(board: Board, led: u8, lit: bool) -> Board {
    Board {
        level: board.level.insert(
            led,
            if lit {
                Level::High
            } else {
                Level::Low
            },
        ),
        ..board
    }
}

/// The LED is lit if and only if it is to be, and no other line is touched.
pub proof fn shown_line_by_line(board: Board, led: u8, lit: bool)
    ensures
        shown(board, led, lit).level[led] == Level::High <==> lit,
        forall|pin: u8|
            pin != led ==> #[trigger] shown(board, led, lit).level[pin] == board.level[pin],
        shown(board, led, lit).duty == board.duty,
{
}

/// One pulse.
proof fn lemma_pulse_holds(board: Board, led: u8, ms: u64)
    ensures
        board::holds(board, pulse_ops(led, ms)) == seq![
            Hold { board: shown(board, led, true), ms: ms as nat },
        ],
        board.run(pulse_ops(led, ms)) == shown(board, led, false),
{
    let on = Op::Write { pin: led, level: Level::High };
    let off = Op::Write { pin: led, level: Level::Low };
    let wait = Op::Wait { ms };
    board::run_one(board, on);
    board::one_wait_one_hold(board.apply(on), ms);
    board::no_wait_no_hold(board, seq![on]);
    board::no_wait_no_hold(board.apply(on), seq![off]);
    board::holds_in_parts(board, seq![on], seq![wait]);
    board::run_in_parts(board, seq![on], seq![wait]);
    board::holds_in_parts(board, seq![on] + seq![wait], seq![off]);
    board::run_three(board, on, wait, off);
    assert(seq![on] + seq![wait] + seq![off] == pulse_ops(led, ms));
    assert(board.run(pulse_ops(led, ms)).level == shown(board, led, false).level);
    assert(board.apply(on) == shown(board, led, true));
}

/// One blink more.
proof fn lemma_one_blink_more(board: Board, led: u8, count: nat)
    ensures
        ({
            let before = board.run(blink_ops(led, count));
            &&& board::holds(board, blink_ops(led, count + 1)) == board::holds(
                board,
                blink_ops(led, count),
            ) + seq![
                Hold { board: shown(before, led, true), ms: 120 },
                Hold { board: shown(before, led, false), ms: 150 },
            ]
            &&& board.run(blink_ops(led, count + 1)) == shown(before, led, false)
        }),
{
    let earlier = blink_ops(led, count);
    let before = board.run(earlier);
    let pulse = pulse_ops(led, BLINK_ON_MS);
    let wait = seq![Op::Wait { ms: BLINK_OFF_MS }];
    lemma_pulse_holds(before, led, BLINK_ON_MS);
    board::run_in_parts(board, earlier, pulse);
    board::holds_in_parts(board, earlier, pulse);
    board::one_wait_one_hold(shown(before, led, false), BLINK_OFF_MS);
    board::run_in_parts(board, earlier + pulse, wait);
    board::holds_in_parts(board, earlier + pulse, wait);
    assert(blink_ops(led, count + 1) == earlier + pulse + wait);
}

/// What is to be seen for each side, in milliseconds of light and dark: one blink for left, 120 on
/// and 150 off, two such blinks for right, and 600 of light for the middle. Behind it the LED is
/// out, and no other line has been touched.
pub proof fn each_side_is_shown(board: Board, led: u8, side: Side)
    ensures
        ({
            let on = shown(board, led, true);
            let off = shown(board, led, false);
            &&& side is Left ==> board::holds(board, report_ops(led, side)) == seq![
                Hold { board: on, ms: 120 },
                Hold { board: off, ms: 150 },
            ]
            &&& side is Right ==> board::holds(board, report_ops(led, side)) == seq![
                Hold { board: on, ms: 120 },
                Hold { board: off, ms: 150 },
                Hold { board: on, ms: 120 },
                Hold { board: off, ms: 150 },
            ]
            &&& side is Center ==> board::holds(board, report_ops(led, side)) == seq![
                Hold { board: on, ms: 600 },
            ]
            &&& board.run(report_ops(led, side)) == off
        }),
{
    let on = shown(board, led, true);
    let off = shown(board, led, false);
    lemma_one_blink_more(board, led, 0);
    lemma_one_blink_more(board, led, 1);
    lemma_pulse_holds(board, led, PULSE_MS);
    assert(blink_ops(led, 0) == Seq::<Op>::empty());
    assert(board::holds(board, blink_ops(led, 0)) == Seq::<Hold>::empty());
    assert(shown(off, led, true).level == on.level);
    assert(shown(off, led, false).level == off.level);
}

/// Where a clap is put down to, by the times alone: the middle if the other microphone heard it at
/// most 60 microseconds after the first, and else the side of the microphone that heard it first.
pub proof fn side_by_the_times(heard: Heard, other: u64)
    ensures
        other - heard.at <= 60 ==> heard.side(Some(other)) == Side::Center,
        other - heard.at > 60 ==> heard.side(Some(other)) == heard.near,
        heard.side(None) == heard.near,
{
}

/// No step is taken that need not be: the LED is lit and put out once for each blink or pulse.
pub proof fn no_step_too_many(led: u8)
    ensures
        report_ops(led, Side::Left).len() == 4,
        report_ops(led, Side::Right).len() == 8,
        report_ops(led, Side::Center).len() == 3,
{
    lemma_blink_len(led, 1);
    lemma_blink_len(led, 2);
}

} // verus!
