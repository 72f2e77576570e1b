//! One client of the command server: lines in, one line of answer to each, and a stop when the
//! client is gone.
use crate::board;
use crate::board::{Board, Duty, Hold, Level, Op};
use crate::command;
use crate::command::{Direction, Wheel};
use crate::rig;
use crate::rig::Rig;
use crate::text;
use crate::tunables;
use crate::tunables::{Key, Tunables};
use vstd::prelude::*;

verus! {

/// The port that the command server listens on.
pub const COMMAND_PORT: u16 = 7878;

/// What became of the last thing that was done with the connection.
#[derive(Debug, PartialEq, Eq)]
pub enum Event {
    /// A line was read, with its line break. Nothing at all was read at the end of the stream.
    Read(String),
    /// Reading failed.
    ReadFailed,
    /// The answer was sent.
    Sent,
    /// Sending the answer failed.
    SendFailed,
}

/// What is to be done with the connection next. A new connection starts with reading a line.
#[derive(Debug, PartialEq, Eq)]
pub enum Action {
    /// Reads the next line.
    ReadLine,
    /// Sends an answer.
    Send(String),
    /// Drops the connection.
    Close,
}

/// The line break behind each answer.
pub open spec fn line_break() -> Seq<char> {
    "\n"@
}

impl Event {
    /// Whether a line came in.
    pub open spec fn is_line(self) -> bool {
        self is Read && self->0@.len() > 0
    }

    /// Whether the connection is over: it ended, or reading or sending failed.
    pub open spec fn ends(self) -> bool {
        !self.is_line() && !(self is Sent)
    }

    /// The steps for the board: those that the line asks for, and a stop at the end.
    pub open spec fn ops(self, rig: Rig, tunables: Tunables) -> Seq<Op> {
        if self.is_line() {
            command::asked(self->0@).ops(rig, tunables)
        } else if self.ends() {
            rig.stop_ops()
        } else {
            seq![]
        }
    }

    /// The tunable values behind the event.
    pub open spec fn tuned(self, tunables: Tunables) -> Tunables {
        if self.is_line() {
            command::asked(self->0@).tuned(tunables)
        } else {
            tunables
        }
    }

    /// What is sent about the event: the answer to a line, with a line break behind it.
    pub open spec fn sent(self, tunables: Tunables) -> Seq<char> {
        if self.is_line() {
            command::asked(self->0@).reply(tunables) + line_break()
        } else {
            seq![]
        }
    }

    /// Whether the motors take what the line asks for.
    pub open spec fn fits(self, rig: Rig, tunables: Tunables) -> bool {
        self.is_line() ==> command::asked(self->0@).fits(rig, tunables)
    }
}

/// Decides what to do next about a client: a line is carried out and answered, an answer that was
/// sent is followed by the next line, and at the end of the stream or at a failure the bot is
/// braked, so that a lost connection never leaves it driving blind.
pub fn handle_client(
    event: Event,
    rig: &Rig,
    tunables: &mut Tunables,
    out: &mut Vec<Op>,
) -> (action: Action)
    requires
        event.fits(*rig, *old(tunables)),
    ensures
        action is Send <==> event.is_line(),
        action is Send ==> action->0@ == event.sent(*old(tunables)),
        action is ReadLine <==> event is Sent,
        action is Close <==> event.ends(),
        *final(tunables) == event.tuned(*old(tunables)),
        final(out)@ == old(out)@ + event.ops(*rig, *old(tunables)),
{
    match event {
        Event::Read(line) => {
            if line.as_str().is_empty() {
                rig.stop(out);
                Action::Close
            } else {
                let mut reply = command::handle_command(line.as_str(), rig, tunables, out);
                reply.append("\n");
                Action::Send(reply)
            }
        },
        Event::Sent => Action::ReadLine,
        Event::ReadFailed => {
            rig.stop(out);
            Action::Close
        },
        Event::SendFailed => {
            rig.stop(out);
            Action::Close
        },
    }
}

/// What is sent for a line is one line: it ends in a line break, and holds no other.
pub proof fn answer_is_one_line(line: Seq<char>, tunables: Tunables)
    ensures
        ({
            let sent = command::asked(line).reply(tunables) + line_break();
            &&& sent.len() > 0
            &&& sent.last() == '\n'
            &&& command::one_line(sent.drop_last())
        }),
{
    let reply = command::asked(line).reply(tunables);
    reveal_strlit("\n");
    command::reply_is_one_line(line, tunables);
    assert((reply + line_break()).drop_last() == reply);
}

/// The tunable values after `events`.
pub open spec fn session_tuned(tunables: Tunables, events: Seq<Event>) -> Tunables
    decreases events.len(),
{
    if events.len() == 0 {
        tunables
    } else {
        events.last().tuned(session_tuned(tunables, events.drop_last()))
    }
}

/// What is sent over `events`: the answer to each line, under the values tuned up to it, with a line
/// break behind it, in the order of the lines.
pub open spec fn session_sent(tunables: Tunables, events: Seq<Event>) -> Seq<char>
    decreases events.len(),
{
    if events.len() == 0 {
        seq![]
    } else {
        session_sent(tunables, events.drop_last()) + events.last().sent(
            session_tuned(tunables, events.drop_last()),
        )
    }
}

/// The board after `events`.
pub open spec fn session_board(
    board: Board,
    rig: Rig,
    tunables: Tunables,
    events: Seq<Event>,
) -> Board
    decreases events.len(),
{
    if events.len() == 0 {
        board
    } else {
        let before = session_board(board, rig, tunables, events.drop_last());
        before.run(events.last().ops(rig, session_tuned(tunables, events.drop_last())))
    }
}

/// Whether the motors take everything that is asked for in `events`.
pub open spec fn session_fits(rig: Rig, tunables: Tunables, events: Seq<Event>) -> bool {
    forall|i: int|
        0 <= i < events.len() ==> (#[trigger] events[i]).fits(
            rig,
            session_tuned(tunables, events.take(i)),
        )
}

/// A connection goes on from where it was: what is asked after `first` is answered under the values
/// tuned in `first`, behind what was sent before.
pub proof fn session_in_parts(tunables: Tunables, first: Seq<Event>, second: Seq<Event>)
    ensures
        ({
            let tuned = session_tuned(tunables, first);
            &&& session_tuned(tunables, first + second) == session_tuned(tuned, second)
            &&& session_sent(tunables, first + second) == session_sent(tunables, first)
                + session_sent(tuned, second)
        }),
    decreases second.len(),
{
    if second.len() == 0 {
        assert(first + second == first);
    } else {
        session_in_parts(tunables, first, second.drop_last());
        assert((first + second).drop_last() == first + second.drop_last());
    }
}

/// The bot goes on from where it was: what is done after `first` is done under the values tuned in
/// `first`, to the board as `first` left it.
pub proof fn session_board_in_parts(
    board: Board,
    rig: Rig,
    tunables: Tunables,
    first: Seq<Event>,
    second: Seq<Event>,
)
    ensures
        session_board(board, rig, tunables, first + second) == session_board(
            session_board(board, rig, tunables, first),
            rig,
            session_tuned(tunables, first),
            second,
        ),
    decreases second.len(),
{
    if second.len() == 0 {
        assert(first + second == first);
    } else {
        session_board_in_parts(board, rig, tunables, first, second.drop_last());
        session_in_parts(tunables, first, second.drop_last());
        assert((first + second).drop_last() == first + second.drop_last());
    }
}

/// Every line is answered, in its turn: the answer to the line at place `i`, under the values tuned
/// up to it, stands right behind what was sent for the events before, and right before what was sent
/// for those after.
pub proof fn each_line_is_answered_in_turn(tunables: Tunables, events: Seq<Event>, i: int)
    requires
        0 <= i < events.len(),
        events[i].is_line(),
    ensures
        ({
            let before = session_tuned(tunables, events.take(i));
            let after = session_tuned(tunables, events.take(i + 1));
            session_sent(tunables, events) == session_sent(tunables, events.take(i))
                + command::asked(events[i]->0@).reply(before) + line_break() + session_sent(
                after,
                events.skip(i + 1),
            )
        }),
{
    session_in_parts(tunables, events.take(i + 1), events.skip(i + 1));
    assert(events.take(i + 1) + events.skip(i + 1) == events);
    assert(events.take(i + 1).drop_last() == events.take(i));
}

/// How many line breaks `s` holds.
pub open spec fn breaks(s: Seq<char>) -> nat
    decreases s.len(),
{
    if s.len() == 0 {
        0
    } else {
        breaks(s.drop_last()) + if s.last() == '\n' {
            1nat
        } else {
            0nat
        }
    }
}

/// How many lines came in.
pub open spec fn lines(events: Seq<Event>) -> nat
    decreases events.len(),
{
    if events.len() == 0 {
        0
    } else {
        lines(events.drop_last()) + if events.last().is_line() {
            1nat
        } else {
            0nat
        }
    }
}

/// The line breaks of two texts, one after the other.
proof fn lemma_breaks_in_parts(a: Seq<char>, b: Seq<char>)
    ensures
        breaks(a + b) == breaks(a) + breaks(b),
    decreases b.len(),
{
    if b.len() == 0 {
        assert(a + b == a);
    } else {
        lemma_breaks_in_parts(a, b.drop_last());
        assert((a + b).drop_last() == a + b.drop_last());
    }
}

/// A text on one line has no line break.
proof fn lemma_no_breaks(s: Seq<char>)
    requires
        command::one_line(s),
    ensures
        breaks(s) == 0,
    decreases s.len(),
{
    if s.len() > 0 {
        lemma_no_breaks(s.drop_last());
    }
}

/// Over a whole connection, as many lines are sent as came in.
pub proof fn session_sends_a_line_for_each_line(tunables: Tunables, events: Seq<Event>)
    ensures
        breaks(session_sent(tunables, events)) == lines(events),
        session_sent(tunables, events).len() > 0 ==> session_sent(tunables, events).last() == '\n',
    decreases events.len(),
{
    if events.len() > 0 {
        let earlier = events.drop_last();
        let tuned = session_tuned(tunables, earlier);
        let last = events.last();
        session_sends_a_line_for_each_line(tunables, earlier);
        lemma_breaks_in_parts(session_sent(tunables, earlier), last.sent(tuned));
        if last.is_line() {
            let reply = command::asked(last->0@).reply(tuned);
            answer_is_one_line(last->0@, tuned);
            assert(last.sent(tuned).drop_last() == reply) by {
                reveal_strlit("\n");
            }
            lemma_no_breaks(reply);
        }
    }
}

/// A value that was set stays until it is set again: over events that do not set `key`, it keeps
/// what it held.
pub proof fn value_stays_until_set_again(tunables: Tunables, events: Seq<Event>, key: Key)
    requires
        forall|i: int|
            0 <= i < events.len() && (#[trigger] events[i]).is_line() ==> !(command::asked(
                events[i]->0@,
            ) is Tune && command::asked(events[i]->0@)->key == key),
    ensures
        session_tuned(tunables, events).at(key) == tunables.at(key),
    decreases events.len(),
{
    if events.len() > 0 {
        let earlier = events.drop_last();
        assert forall|i: int| 0 <= i < earlier.len() && (#[trigger] earlier[i]).is_line() implies !(
        command::asked(earlier[i]->0@) is Tune && command::asked(earlier[i]->0@)->key == key) by {
            assert(events[i].is_line());
        }
        value_stays_until_set_again(tunables, earlier, key);
        assert(events[events.len() - 1] == events.last());
    }
}

/// In a connection too, `get` reads what `set` wrote: where the line at place `i` sets a key, and no
/// event before the `get` at place `j` sets it again, the answer to the `get` lists the low 32 bits
/// of the number for the key.
pub proof fn session_get_reads_last_set(
    tunables: Tunables,
    events: Seq<Event>,
    i: int,
    j: int,
    key: Key,
    value: u64,
)
    requires
        0 <= i < j < events.len(),
        events[i].is_line(),
        command::asked(events[i]->0@) is Tune,
        command::asked(events[i]->0@)->key == key,
        command::asked(events[i]->0@)->value == value,
        events[j].is_line(),
        command::asked(events[j]->0@) is Get,
        forall|k: int|
            i < k < j && (#[trigger] events[k]).is_line() ==> !(command::asked(
                events[k]->0@,
            ) is Tune && command::asked(events[k]->0@)->key == key),
    ensures
        ({
            let tuned = session_tuned(tunables, events.take(j));
            &&& tuned.at(key) == (value as nat % 0x1_0000_0000) as u32
            &&& events[j].sent(tuned) == tuned.listing() + line_break()
            &&& tunables::shows(
                events[j].sent(tuned).drop_last(),
                key,
                value as nat % 0x1_0000_0000,
            )
        }),
{
    let upto = events.take(i + 1);
    let between = events.subrange(i + 1, j);
    assert(upto.drop_last() == events.take(i));
    assert(upto + between == events.take(j));
    session_in_parts(tunables, upto, between);
    assert forall|k: int| 0 <= k < between.len() && (#[trigger] between[k]).is_line() implies !(
    command::asked(between[k]->0@) is Tune && command::asked(between[k]->0@)->key == key) by {
        assert(events[k + i + 1].is_line());
    }
    value_stays_until_set_again(session_tuned(tunables, upto), between, key);
    let tuned = session_tuned(tunables, events.take(j));
    tunables::listing_reads_back(tuned, key);
    reveal_strlit("\n");
    assert((tuned.listing() + line_break()).drop_last() == tuned.listing());
}

/// However a connection went and however it ended, the bot is braked once it is over.
pub proof fn lost_client_leaves_bot_braked(
    board: Board,
    rig: Rig,
    tunables: Tunables,
    events: Seq<Event>,
)
    requires
        rig.well_formed(),
        events.len() > 0,
        events.last().ends(),
    ensures
        rig.braked(session_board(board, rig, tunables, events)),
{
    rig::stop_brakes(rig, session_board(board, rig, tunables, events.drop_last()));
}

/// Throughout a connection no motor has both direction lines high between two events, and the LED
/// is lit if and only if the right wheel is commanded to turn, if it was so at the start.
pub proof fn session_keeps_consistent(
    board: Board,
    rig: Rig,
    tunables: Tunables,
    events: Seq<Event>,
)
    requires
        rig.well_formed(),
        rig.consistent(board),
        session_fits(rig, tunables, events),
    ensures
        rig.consistent(session_board(board, rig, tunables, events)),
    decreases events.len(),
{
    if events.len() > 0 {
        let earlier = events.drop_last();
        let last = events.last();
        let tuned = session_tuned(tunables, earlier);
        assert forall|i: int| 0 <= i < earlier.len() implies (#[trigger] earlier[i]).fits(
            rig,
            session_tuned(tunables, earlier.take(i)),
        ) by {
            assert(events[i].fits(rig, session_tuned(tunables, events.take(i))));
            assert(events.take(i) == earlier.take(i));
        }
        session_keeps_consistent(board, rig, tunables, earlier);
        let before = session_board(board, rig, tunables, earlier);
        assert(events[events.len() - 1].fits(
            rig,
            session_tuned(tunables, events.take(events.len() - 1)),
        ));
        assert(events.take(events.len() - 1) == earlier);
        if last.is_line() {
            command::command_keeps_consistent(command::asked(last->0@), rig, before, tuned);
        } else if last.ends() {
            rig::stop_brakes(rig, before);
        }
    }
}

/// In every wait within an event of a connection too, no motor has both direction lines high, and the
/// LED is lit if and only if the right wheel is commanded to turn, if it was so at the start.
pub proof fn session_is_consistent_in_waits(
    board: Board,
    rig: Rig,
    tunables: Tunables,
    events: Seq<Event>,
    i: int,
)
    requires
        rig.well_formed(),
        rig.consistent(board),
        session_fits(rig, tunables, events),
        0 <= i < events.len(),
    ensures
        ({
            let before = session_board(board, rig, tunables, events.take(i));
            let tuned = session_tuned(tunables, events.take(i));
            rig.consistent_in_waits(before, events[i].ops(rig, tuned))
        }),
{
    let earlier = events.take(i);
    let tuned = session_tuned(tunables, earlier);
    assert forall|k: int| 0 <= k < earlier.len() implies (#[trigger] earlier[k]).fits(
        rig,
        session_tuned(tunables, earlier.take(k)),
    ) by {
        assert(events[k].fits(rig, session_tuned(tunables, events.take(k))));
        assert(events.take(k) == earlier.take(k));
    }
    session_keeps_consistent(board, rig, tunables, earlier);
    let before = session_board(board, rig, tunables, earlier);
    if events[i].is_line() {
        command::command_is_consistent_in_waits(
            command::asked(events[i]->0@),
            rig,
            before,
            tuned,
        );
    }
}

/// At every single step of a connection the LED is lit whenever the right wheel is commanded to
/// turn, if it was so at the start.
pub proof fn session_keeps_lit(
    board: Board,
    rig: Rig,
    tunables: Tunables,
    events: Seq<Event>,
    i: int,
)
    requires
        rig.well_formed(),
        rig.lit(board),
        0 <= i < events.len(),
    ensures
        ({
            let before = session_board(board, rig, tunables, events.take(i));
            let tuned = session_tuned(tunables, events.take(i));
            rig.lit_throughout(before, events[i].ops(rig, tuned))
        }),
    decreases i,
{
    let earlier = events.take(i);
    let before = session_board(board, rig, tunables, earlier);
    let tuned = session_tuned(tunables, earlier);
    if i > 0 {
        session_keeps_lit(board, rig, tunables, events, i - 1);
        assert(earlier.drop_last() == events.take(i - 1));
        rig::lit_at_the_end(
            rig,
            session_board(board, rig, tunables, events.take(i - 1)),
            events[i - 1].ops(rig, session_tuned(tunables, events.take(i - 1))),
        );
    }
    assert(rig.lit(before));
    if events[i].is_line() {
        command::command_keeps_lit(command::asked(events[i]->0@), rig, before, tuned);
    } else if events[i].ends() {
        rig::stop_keeps_lit(rig, before);
    } else {
        assert forall|k: int| 0 <= k <= 0 implies rig.lit(
            #[trigger] before.run(events[i].ops(rig, tuned).take(k)),
        ) by {
            assert(events[i].ops(rig, tuned).take(k) == Seq::<Op>::empty());
        }
    }
}

/// A line that comes in does exactly what it asks for: to the board its steps, to the values what it
/// sets, and its answer with a line break is sent behind what was sent before.
pub proof fn line_is_carried_out(
    board: Board,
    rig: Rig,
    tunables: Tunables,
    events: Seq<Event>,
    line: String,
)
    requires
        line@.len() > 0,
    ensures
        ({
            let asked = command::asked(line@);
            let tuned = session_tuned(tunables, events);
            let then = events.push(Event::Read(line));
            &&& session_board(board, rig, tunables, then) == session_board(
                board,
                rig,
                tunables,
                events,
            ).run(asked.ops(rig, tuned))
            &&& session_tuned(tunables, then) == asked.tuned(tuned)
            &&& session_sent(tunables, then) == session_sent(tunables, events) + asked.reply(tuned)
                + "\n"@
            &&& Event::Read(line).ops(rig, tuned) == asked.ops(rig, tuned)
            &&& Event::Read(line).fits(rig, tuned) <==> asked.fits(rig, tuned)
        }),
{
    assert(events.push(Event::Read(line)).drop_last() == events);
}

/// After a line that names a wheel and a direction, that wheel is told that direction at the duty
/// that the line gives, or else at the driving speed as it was last set, and the LED goes with the
/// right wheel. Every other line of the board is as it was before the line, no value has changed,
/// and no time has passed.
pub proof fn line_drives_the_wheel_it_names(
    board: Board,
    rig: Rig,
    tunables: Tunables,
    events: Seq<Event>,
    line: String,
    wheel: Wheel,
    direction: Direction,
)
    requires
        rig.well_formed(),
        text::words(line@).len() >= 2,
        text::words(line@)[0] == (match wheel {
            Wheel::Left => "left"@,
            Wheel::Right => "right"@,
        }),
        text::words(line@)[1] == (match direction {
            Direction::Forward => "fwd"@,
            Direction::Reverse => "rev"@,
            Direction::Stop => "stop"@,
        }),
    ensures
        ({
            let w = text::words(line@);
            let before = session_board(board, rig, tunables, events);
            let after = session_board(board, rig, tunables, events.push(Event::Read(line)));
            let tuned = session_tuned(tunables, events);
            let given = w.len() >= 3 && text::number(w[2], 0xffff_ffff) is Some;
            let pct = if given {
                text::number(w[2], 0xffff_ffff)->0 as u32
            } else {
                tuned.drive_duty
            };
            let (motor, other) = match wheel {
                Wheel::Left => (rig.left, rig.right),
                Wheel::Right => (rig.right, rig.left),
            };
            &&& direction is Forward ==> after.level[motor.wires.in1] == Level::High
                && after.level[motor.wires.in2] == Level::Low
            &&& direction is Reverse ==> after.level[motor.wires.in1] == Level::Low
                && after.level[motor.wires.in2] == Level::High
            &&& direction is Stop ==> after.level[motor.wires.in1] == Level::Low
                && after.level[motor.wires.in2] == Level::Low
            &&& after.duty[motor.wires.pwm] == Duty::Counts(
                if direction is Stop {
                    0u32
                } else {
                    (motor.max_duty * pct / 100) as u32
                },
            )
            &&& after.level[rig.right_led] == (if wheel is Left {
                before.level[rig.right_led]
            } else if direction is Stop {
                Level::Low
            } else {
                Level::High
            })
            &&& after.level[other.wires.in1] == before.level[other.wires.in1]
            &&& after.level[other.wires.in2] == before.level[other.wires.in2]
            &&& after.duty[other.wires.pwm] == before.duty[other.wires.pwm]
            &&& forall|pin: u8|
                pin != motor.wires.in1 && pin != motor.wires.in2 && pin != rig.right_led
                    ==> #[trigger] after.level[pin] == before.level[pin]
            &&& forall|pin: u8|
                pin != motor.wires.pwm ==> #[trigger] after.duty[pin] == before.duty[pin]
            &&& session_tuned(tunables, events.push(Event::Read(line))) == tuned
            &&& board::holds(before, Event::Read(line).ops(rig, tuned)) == Seq::<Hold>::empty()
        }),
{
    let before = session_board(board, rig, tunables, events);
    let tuned = session_tuned(tunables, events);
    if line@.len() == 0 {
        text::space_has_no_words(line@);
    }
    line_is_carried_out(board, rig, tunables, events, line);
    command::drive_line_drives_the_wheel(line@, rig, before, tuned, wheel, direction);
}

/// After `stop`, `alt` and `rect` the bot is at rest, whatever it was doing.
pub proof fn line_leaves_the_bot_at_rest(
    board: Board,
    rig: Rig,
    tunables: Tunables,
    events: Seq<Event>,
    line: String,
)
    requires
        rig.well_formed(),
        text::words(line@).len() >= 1,
        text::words(line@)[0] == "stop"@ || text::words(line@)[0] == "alt"@ || text::words(
            line@,
        )[0] == "rect"@,
        2 * session_tuned(tunables, events).turn_90_ms <= u32::MAX,
    ensures
        ({
            let before = session_board(board, rig, tunables, events);
            let then = events.push(Event::Read(line));
            &&& session_board(board, rig, tunables, then) == rig.at_rest(before)
            &&& session_tuned(tunables, then) == session_tuned(tunables, events)
        }),
{
    let before = session_board(board, rig, tunables, events);
    let tuned = session_tuned(tunables, events);
    if line@.len() == 0 {
        text::space_has_no_words(line@);
    }
    line_is_carried_out(board, rig, tunables, events, line);
    if text::words(line@)[0] == "stop"@ {
        command::stop_line_stops(line@, rig, before, tuned);
    } else if text::words(line@)[0] == "alt"@ {
        command::alt_line_turns_each_wheel(line@, rig, before, tuned);
    } else {
        command::rect_line_drives_the_routine(line@, rig, before, tuned);
    }
}

/// A line that comes in, blank or not, and does not start with a wheel, `stop`, `alt` or `rect`
/// leaves the board as it is, and so does a wheel without a direction.
pub proof fn other_lines_leave_the_board(
    board: Board,
    rig: Rig,
    tunables: Tunables,
    events: Seq<Event>,
    line: String,
)
    requires
        line@.len() > 0,
        ({
            let w = text::words(line@);
            ||| w.len() == 0
            ||| w[0] != "left"@ && w[0] != "right"@ && w[0] != "stop"@ && w[0] != "alt"@ && w[0]
                != "rect"@
            ||| (w[0] == "left"@ || w[0] == "right"@) && (w.len() < 2 || w[1] != "fwd"@ && w[1]
                != "rev"@ && w[1] != "stop"@)
        }),
    ensures
        session_board(board, rig, tunables, events.push(Event::Read(line))) == session_board(
            board,
            rig,
            tunables,
            events,
        ),
{
    line_is_carried_out(board, rig, tunables, events, line);
    command::other_lines_do_not_move(line@, rig, session_tuned(tunables, events));
}

/// That an answer has been sent changes nothing.
pub proof fn sent_answer_changes_nothing(
    board: Board,
    rig: Rig,
    tunables: Tunables,
    events: Seq<Event>,
)
    ensures
        ({
            let then = events.push(Event::Sent);
            &&& session_board(board, rig, tunables, then) == session_board(
                board,
                rig,
                tunables,
                events,
            )
            &&& session_tuned(tunables, then) == session_tuned(tunables, events)
            &&& session_sent(tunables, then) == session_sent(tunables, events)
            &&& Event::Sent.ops(rig, tunables) == Seq::<Op>::empty()
        }),
{
    assert(events.push(Event::Sent).drop_last() == events);
}

/// The end of the stream and a failure put the bot to rest at once. Nothing is sent any more, and
/// the values stay as they are.
pub proof fn end_leaves_the_bot_at_rest(
    board: Board,
    rig: Rig,
    tunables: Tunables,
    events: Seq<Event>,
    end: Event,
)
    requires
        rig.well_formed(),
        end is ReadFailed || end is SendFailed || (end is Read && end->0@.len() == 0),
    ensures
        ({
            let before = session_board(board, rig, tunables, events);
            let tuned = session_tuned(tunables, events);
            let then = events.push(end);
            &&& session_board(board, rig, tunables, then) == rig.at_rest(before)
            &&& session_tuned(tunables, then) == tuned
            &&& session_sent(tunables, then) == session_sent(tunables, events)
            &&& board::holds(before, end.ops(rig, tuned)) == Seq::<Hold>::empty()
        }),
{
    let before = session_board(board, rig, tunables, events);
    assert(events.push(end).drop_last() == events);
    rig::stop_sets_every_line(rig, before);
}

/// What comes after a client's event: a line is answered, a sent answer is followed by the next
/// line, and everything else ends the connection.
pub proof fn events_are_told_apart(event: Event)
    ensures
        event.is_line() <==> event is Read && event->0@.len() > 0,
        event.ends() <==> event is ReadFailed || event is SendFailed || (event is Read
            && event->0@.len() == 0),
{
}

/// In a connection, as text: the answer to a `get` shows for every key the value as it was tuned by
/// the lines before, and ends in a line break.
pub proof fn session_get_shows_every_value(
    tunables: Tunables,
    events: Seq<Event>,
    line: String,
    key: Key,
)
    requires
        text::words(line@).len() >= 1,
        text::words(line@)[0] == "get"@,
    ensures
        ({
            let earlier = session_sent(tunables, events);
            let sent = session_sent(tunables, events.push(Event::Read(line)));
            let answer = sent.subrange(earlier.len() as int, sent.len() - 1);
            &&& sent.len() > earlier.len()
            &&& sent.take(earlier.len() as int) == earlier
            &&& sent.last() == '\n'
            &&& tunables::shows(answer, key, session_tuned(tunables, events).at(key) as nat)
        }),
{
    let tuned = session_tuned(tunables, events);
    let then = events.push(Event::Read(line));
    let reply = command::asked(line@).reply(tuned);
    let earlier = session_sent(tunables, events);
    if line@.len() == 0 {
        text::space_has_no_words(line@);
    }
    assert(then.drop_last() == events);
    assert(then.last() == Event::Read(line));
    command::get_shows_every_value(line@, tuned, key);
    reveal_strlit("\n");
    let sent = session_sent(tunables, then);
    assert(sent == earlier + (reply + "\n"@));
    assert(sent.subrange(earlier.len() as int, sent.len() - 1) == reply);
    assert(sent.take(earlier.len() as int) == earlier);
}

} // verus!
