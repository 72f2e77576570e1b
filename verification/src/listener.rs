//! Watching one microphone line: every change of its level is mirrored on an LED.
use crate::board::{Board, Level, Op};
use vstd::prelude::*;

verus! {

/// How often the line is read, in microseconds: often enough to catch a clap.
pub const POLL_US: u64 = 200;

/// The level for a line that is read high or low.
pub open spec fn level(high: bool) -> Level {
    if high {
        Level::High
    } else {
        Level::Low
    }
}

/// The level for a line that is read high or low.
pub fn level_of(high: bool) -> (shown: Level)
    ensures
        shown == level(high),
{
    if high {
        Level::High
    } else {
        Level::Low
    }
}

/// The LED that mirrors the line, and what the line was last seen at.
#[derive(Clone, Copy, Debug, PartialEq, Eq, Structural)]
pub struct Mirror {
    pub led: u8,
    pub last: bool,
}

impl Mirror {
    /// The steps for a reading of the line: nothing as long as it does not change.
    pub open spec fn poll_ops(self, now: bool) -> Seq<Op> {
        if now != self.last {
            seq![Op::Write { pin: self.led, level: level(now) }]
        } else {
            seq![]
        }
    }

    /// Starts with the line's idle level, and shows it.
    pub fn start(led: u8, idle: bool, out: &mut Vec<Op>) -> (mirror: Mirror)
        ensures
            mirror == (Mirror { led, last: idle }),
            final(out)@ == old(out)@.push(Op::Write { pin: led, level: level(idle) }),
    {
        out.push(Op::Write { pin: led, level: level_of(idle) });
        Mirror { led, last: idle }
    }

    /// Takes a reading of the line, and tells whether it changed.
    pub fn poll(&mut self, now: bool, out: &mut Vec<Op>) -> (changed: bool)
        ensures
            changed == (now != old(self).last),
            *final(self) == (Mirror { last: now, ..*old(self) }),
            final(out)@ == old(out)@ + old(self).poll_ops(now),
    {
        if now != self.last {
            out.push(Op::Write { pin: self.led, level: level_of(now) });
            self.last = now;
            true
        } else {
            false
        }
    }
}

/// The steps for the readings after `idle`, one after the other.
pub open spec fn mirror_ops(led: u8, idle: bool, readings: Seq<bool>) -> Seq<Op>
    decreases readings.len(),
{
    if readings.len() == 0 {
        seq![Op::Write { pin: led, level: level(idle) }]
    } else {
        let earlier = readings.drop_last();
        let last = if earlier.len() == 0 {
            idle
        } else {
            earlier.last()
        };
        mirror_ops(led, idle, earlier) + Mirror { led, last }.poll_ops(readings.last())
    }
}

/// The LED always shows the last reading of the line.
pub proof fn led_shows_last_reading(board: Board, led: u8, idle: bool, readings: Seq<bool>)
    ensures
        board.run(mirror_ops(led, idle, readings)).level[led] == level(
            if readings.len() == 0 {
                idle
            } else {
                readings.last()
            },
        ),
    decreases readings.len(),
{
    if readings.len() == 0 {
        crate::board::run_one(board, Op::Write { pin: led, level: level(idle) });
    } else {
        let earlier = readings.drop_last();
        let last = if earlier.len() == 0 {
            idle
        } else {
            earlier.last()
        };
        let before = mirror_ops(led, idle, earlier);
        let now = readings.last();
        led_shows_last_reading(board, led, idle, earlier);
        crate::board::run_in_parts(board, before, Mirror { led, last }.poll_ops(now));
        if now != last {
            crate::board::run_one(board.run(before), Op::Write { pin: led, level: level(now) });
        }
    }
}

/// A reading that is the same as the last does nothing, and a changed one sets the LED to it and
/// touches no other line.
pub proof fn only_a_change_is_shown(mirror: Mirror, board: Board, now: bool)
    ensures
        now == mirror.last ==> mirror.poll_ops(now) == Seq::<Op>::empty(),
        now != mirror.last ==> board.run(mirror.poll_ops(now)) == (Board {
            level: board.level.insert(
                mirror.led,
                if now {
                    Level::High
                } else {
                    Level::Low
                },
            ),
            ..board
        }),
        now != mirror.last ==> mirror.poll_ops(now).len() == 1,
{
    crate::board::run_one(board, Op::Write { pin: mirror.led, level: level(now) });
}

/// The LED has been written once for the idle level and once for every change since.
pub proof fn one_write_for_each_change(led: u8, idle: bool, readings: Seq<bool>, now: bool)
    ensures
        mirror_ops(led, idle, seq![]).len() == 1,
        mirror_ops(led, idle, readings.push(now)).len() == mirror_ops(led, idle, readings).len() + (
        if now == (if readings.len() == 0 {
            idle
        } else {
            readings.last()
        }) {
            0int
        } else {
            1int
        }),
{
    assert(readings.push(now).drop_last() == readings);
}

} // verus!
