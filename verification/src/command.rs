//! The line commands that drive the bot: what a line asks for, what it is answered, and what the
//! bot does about it.
use crate::board;
use crate::board::{Board, Duty, Hold, Level, Op};
use crate::motion;
use crate::motion::{Motion, Phase, Turn};
use crate::rig;
use crate::rig::{Motor, Rig};
use crate::text;
use crate::tunables;
use crate::tunables::{Key, Tunables};
use vstd::prelude::*;

verus! {

/// How long each wheel turns in the alternating test, unless the command says so.
pub const ALT_MS: u64 = 1000;

/// The pause behind each part of the alternating test.
pub const ALT_PAUSE_MS: u64 = 200;

/// One of the two wheels.
#[derive(Clone, Copy, Debug, PartialEq, Eq, Structural)]
pub enum Wheel {
    Left,
    Right,
}

impl Wheel {
    /// The word for the wheel.
    pub open spec fn name(self) -> Seq<char> {
        match self {
            Wheel::Left => "left"@,
            Wheel::Right => "right"@,
        }
    }

    /// The motor of the wheel.
    pub open spec fn motor(self, rig: Rig) -> Motor {
        match self {
            Wheel::Left => rig.left,
            Wheel::Right => rig.right,
        }
    }

    /// The steps that drive the wheel.
    pub open spec fn drive_ops(self, rig: Rig, dir: int, duty_pct: u32) -> Seq<Op> {
        match self {
            Wheel::Left => rig.left.drive_ops(dir, duty_pct),
            Wheel::Right => rig.right_ops(dir, duty_pct),
        }
    }

    /// The word for the wheel.
    pub fn word(self) -> (word: &'static str)
        ensures
            word@ == self.name(),
    {
        match self {
            Wheel::Left => "left",
            Wheel::Right => "right",
        }
    }

    /// Tells whether the motor of the wheel can be driven at `duty_pct` percent.
    pub fn takes_duty(self, rig: &Rig, duty_pct: u32) -> (fits: bool)
        ensures
            fits == self.motor(*rig).duty_fits(duty_pct),
    {
        match self {
            Wheel::Left => rig.left.takes_duty(duty_pct),
            Wheel::Right => rig.right.takes_duty(duty_pct),
        }
    }

    /// Drives the wheel.
    pub fn drive(self, rig: &Rig, dir: i32, duty_pct: u32, out: &mut Vec<Op>)
        requires
            dir != 0 ==> self.motor(*rig).duty_fits(duty_pct),
        ensures
            final(out)@ == old(out)@ + self.drive_ops(*rig, dir as int, duty_pct),
    {
        match self {
            Wheel::Left => rig.left_drive(dir, duty_pct, out),
            Wheel::Right => rig.right_drive(dir, duty_pct, out),
        }
    }
}

/// What a wheel can be told.
#[derive(Clone, Copy, Debug, PartialEq, Eq, Structural)]
pub enum Direction {
    Forward,
    Reverse,
    Stop,
}

impl Direction {
    /// The word for the direction.
    pub open spec fn name(self) -> Seq<char> {
        match self {
            Direction::Forward => "fwd"@,
            Direction::Reverse => "rev"@,
            Direction::Stop => "stop"@,
        }
    }

    /// The sign of the direction.
    pub open spec fn sign(self) -> int {
        match self {
            Direction::Forward => 1,
            Direction::Reverse => -1,
            Direction::Stop => 0,
        }
    }

    /// The word for the direction.
    pub fn word(self) -> (word: &'static str)
        ensures
            word@ == self.name(),
    {
        match self {
            Direction::Forward => "fwd",
            Direction::Reverse => "rev",
            Direction::Stop => "stop",
        }
    }

    /// The direction as a sign.
    pub fn dir(self) -> (dir: i32)
        ensures
            dir == self.sign(),
    {
        match self {
            Direction::Forward => 1,
            Direction::Reverse => -1,
            Direction::Stop => 0,
        }
    }
}

/// What a line asks for. `W` holds the words that are quoted in the answer.
#[derive(Debug, PartialEq, Eq)]
pub enum Command<W> {
    /// A blank line.
    Nothing,
    /// Drives one wheel, at driving speed unless a duty is given.
    Drive { wheel: Wheel, direction: Direction, duty: Option<u32> },
    /// A wheel without a direction.
    DriveUsage,
    /// A wheel with an unknown direction.
    BadDirection,
    /// Brakes both wheels.
    Stop,
    /// Drives the wheels in turn, forward and back, for `ms` each.
    Alt { ms: u64 },
    /// Drives the whole routine.
    Rect,
    /// Sets a tunable value.
    Tune { key: Key, value: u64 },
    /// A `set` without a key or a value.
    SetUsage,
    /// A `set` with a value that is no number.
    BadValue,
    /// A `set` with an unknown key.
    UnknownKey(W),
    /// Lists the tunable values.
    Get,
    /// Lists the commands.
    Help,
    /// A word that is no command.
    Unknown(W),
}

impl<'a> View for Command<&'a str> {
    type V = Command<Seq<char>>;

    open spec fn view(&self) -> Command<Seq<char>> {
        match *self {
            Command::Nothing => Command::Nothing,
            Command::Drive { wheel, direction, duty } => Command::Drive { wheel, direction, duty },
            Command::DriveUsage => Command::DriveUsage,
            Command::BadDirection => Command::BadDirection,
            Command::Stop => Command::Stop,
            Command::Alt { ms } => Command::Alt { ms },
            Command::Rect => Command::Rect,
            Command::Tune { key, value } => Command::Tune { key, value },
            Command::SetUsage => Command::SetUsage,
            Command::BadValue => Command::BadValue,
            Command::UnknownKey(word) => Command::UnknownKey(word@),
            Command::Get => Command::Get,
            Command::Help => Command::Help,
            Command::Unknown(word) => Command::Unknown(word@),
        }
    }
}

/// The number at place `i` of a line's words, where there is one that is at most `max`.
pub open spec fn number_at(line: Seq<Seq<char>>, i: int, max: nat) -> Option<nat> {
    if i < line.len() {
        text::number(line[i], max)
    } else {
        None
    }
}

/// What the words of a `left` or `right` command ask for.
pub open spec fn drive_request(line: Seq<Seq<char>>, wheel: Wheel) -> Command<Seq<char>> {
    let duty = match number_at(line, 2, u32::MAX as nat) {
        Some(n) => Some(n as u32),
        None => None,
    };
    if line.len() < 2 {
        Command::DriveUsage
    } else if line[1] == Direction::Forward.name() {
        Command::Drive { wheel, direction: Direction::Forward, duty }
    } else if line[1] == Direction::Reverse.name() {
        Command::Drive { wheel, direction: Direction::Reverse, duty }
    } else if line[1] == Direction::Stop.name() {
        Command::Drive { wheel, direction: Direction::Stop, duty }
    } else {
        Command::BadDirection
    }
}

/// What the words of a `set` command ask for.
pub open spec fn set_request(line: Seq<Seq<char>>) -> Command<Seq<char>> {
    if line.len() < 3 {
        Command::SetUsage
    } else {
        match (text::number(line[2], u64::MAX as nat), Key::named(line[1])) {
            (None, _) => Command::BadValue,
            (Some(_), None) => Command::UnknownKey(line[1]),
            (Some(n), Some(key)) => Command::Tune { key, value: n as u64 },
        }
    }
}

/// What a line asks for, by its words. Words beyond those that a command takes are ignored.
pub open spec fn request(line: Seq<Seq<char>>) -> Command<Seq<char>> {
    if line.len() == 0 {
        Command::Nothing
    } else if line[0] == Wheel::Left.name() {
        drive_request(line, Wheel::Left)
    } else if line[0] == Wheel::Right.name() {
        drive_request(line, Wheel::Right)
    } else if line[0] == "stop"@ {
        Command::Stop
    } else if line[0] == "alt"@ {
        Command::Alt {
            ms: match number_at(line, 1, u64::MAX as nat) {
                Some(n) => n as u64,
                None => ALT_MS,
            },
        }
    } else if line[0] == "rect"@ {
        Command::Rect
    } else if line[0] == "set"@ {
        set_request(line)
    } else if line[0] == "get"@ {
        Command::Get
    } else if line[0] == "help"@ {
        Command::Help
    } else {
        Command::Unknown(line[0])
    }
}

/// What a line of text asks for.
pub open spec fn asked(line: Seq<char>) -> Command<Seq<char>> {
    request(text::words(line))
}

/// The steps for one part of the alternating test.
pub open spec fn alt_part_ops(rig: Rig, wheel: Wheel, dir: int, duty_pct: u32, ms: u64) -> Seq<
    Op,
> {
    wheel.drive_ops(rig, dir, duty_pct) + seq![Op::Wait { ms }] + rig.stop_ops() + seq![
        Op::Wait { ms: ALT_PAUSE_MS },
    ]
}

/// The steps of the alternating test: left forward, left back, right forward, right back.
pub open spec fn alt_ops(rig: Rig, duty_pct: u32, ms: u64) -> Seq<Op> {
    alt_part_ops(rig, Wheel::Left, 1, duty_pct, ms) + alt_part_ops(
        rig,
        Wheel::Left,
        -1,
        duty_pct,
        ms,
    ) + alt_part_ops(rig, Wheel::Right, 1, duty_pct, ms) + alt_part_ops(
        rig,
        Wheel::Right,
        -1,
        duty_pct,
        ms,
    )
}

impl Command<Seq<char>> {
    /// The duty that a wheel is driven at.
    pub open spec fn duty_or(duty: Option<u32>, tunables: Tunables) -> u32 {
        match duty {
            Some(pct) => pct,
            None => tunables.drive_duty,
        }
    }

    /// Whether the motors take the speeds of the command, and the times of the routine fit.
    pub open spec fn fits(self, rig: Rig, tunables: Tunables) -> bool {
        match self {
            Command::Drive { wheel, direction, duty } => direction.sign() != 0 ==> wheel.motor(
                rig,
            ).duty_fits(Self::duty_or(duty, tunables)),
            Command::Alt { .. } => rig.duty_fits(tunables.drive_duty),
            Command::Rect => rig.routine_fits(tunables),
            _ => true,
        }
    }

    /// The steps that the board is to carry out.
    pub open spec fn ops(self, rig: Rig, tunables: Tunables) -> Seq<Op> {
        match self {
            Command::Drive { wheel, direction, duty } => wheel.drive_ops(
                rig,
                direction.sign(),
                Self::duty_or(duty, tunables),
            ),
            Command::Stop => rig.stop_ops(),
            Command::Alt { ms } => alt_ops(rig, tunables.drive_duty, ms),
            Command::Rect => rig.routine_ops(tunables),
            _ => seq![],
        }
    }

    /// The tunable values behind the command.
    pub open spec fn tuned(self, tunables: Tunables) -> Tunables {
        match self {
            Command::Tune { key, value } => tunables.with(
                key,
                (value as nat % 0x1_0000_0000) as u32,
            ),
            _ => tunables,
        }
    }

    /// The answer.
    pub open spec fn reply(self, tunables: Tunables) -> Seq<char> {
        match self {
            Command::Nothing => seq![],
            Command::Drive { wheel, direction, duty } => "ok "@ + wheel.name() + " "@
                + direction.name() + " "@ + text::decimal(Self::duty_or(duty, tunables) as nat),
            Command::DriveUsage => "usage: left|right fwd|rev|stop [duty_pct]"@,
            Command::BadDirection => "dir must be fwd, rev, or stop"@,
            Command::Stop => "ok stop"@,
            Command::Alt { .. } => "ok alt"@,
            Command::Rect => "ok rect"@,
            Command::Tune { key, value } => "ok set "@ + key.name() + " "@ + text::decimal(
                value as nat,
            ),
            Command::SetUsage => "usage: set <key> <value>"@,
            Command::BadValue => "value must be an integer"@,
            Command::UnknownKey(word) => "unknown key '"@ + word + "'"@,
            Command::Get => tunables.listing(),
            Command::Help =>
                "commands: left|right fwd|rev|stop [duty]; stop; alt [ms]; rect; set <key> <val>; get; help"@,
            Command::Unknown(word) => "unknown command '"@ + word + "' (try 'help')"@,
        }
    }

    /// Whether the command is turned down.
    pub open spec fn refused(self) -> bool {
        match self {
            Command::DriveUsage
            | Command::BadDirection
            | Command::SetUsage
            | Command::BadValue
            | Command::UnknownKey(_)
            | Command::Unknown(_) => true,
            _ => false,
        }
    }
}

/// Reads the number at place `i` of the words, up to 64 bits.
fn word_u64(list: &Vec<&str>, i: usize) -> (n: Option<u64>)
    ensures
        n is Some <==> number_at(text::contents(list@), i as int, u64::MAX as nat) is Some,
        n is Some ==> n->0 as nat == number_at(
            text::contents(list@),
            i as int,
            u64::MAX as nat,
        )->0,
{
    if i < list.len() {
        text::parse_u64(list[i])
    } else {
        None
    }
}

/// Reads the number at place `i` of the words, up to 32 bits.
fn word_u32(list: &Vec<&str>, i: usize) -> (n: Option<u32>)
    ensures
        n is Some <==> number_at(text::contents(list@), i as int, u32::MAX as nat) is Some,
        n is Some ==> n->0 as nat == number_at(
            text::contents(list@),
            i as int,
            u32::MAX as nat,
        )->0,
{
    if i < list.len() {
        text::parse_u32(list[i])
    } else {
        None
    }
}

/// Reads the rest of a `left` or `right` command.
fn parse_drive<'a>(list: &Vec<&'a str>, wheel: Wheel) -> (command: Command<&'a str>)
    ensures
        command@ == drive_request(text::contents(list@), wheel),
{
    if list.len() < 2 {
        return Command::DriveUsage;
    }
    let duty = word_u32(list, 2);
    let word = list[1];
    assert(text::contents(list@)[1] == word@);
    if text::same_text(word, Direction::Forward.word()) {
        Command::Drive { wheel, direction: Direction::Forward, duty }
    } else if text::same_text(word, Direction::Reverse.word()) {
        Command::Drive { wheel, direction: Direction::Reverse, duty }
    } else if text::same_text(word, Direction::Stop.word()) {
        Command::Drive { wheel, direction: Direction::Stop, duty }
    } else {
        Command::BadDirection
    }
}

/// Reads the rest of a `set` command.
fn parse_set<'a>(list: &Vec<&'a str>) -> (command: Command<&'a str>)
    ensures
        command@ == set_request(text::contents(list@)),
{
    if list.len() < 3 {
        return Command::SetUsage;
    }
    assert(text::contents(list@)[1] == list@[1]@);
    assert(text::contents(list@)[2] == list@[2]@);
    match text::parse_u64(list[2]) {
        None => Command::BadValue,
        Some(value) => match Key::parse(list[1]) {
            None => Command::UnknownKey(list[1]),
            Some(key) => Command::Tune { key, value },
        },
    }
}

/// Reads a line.
pub fn parse_command<'a>(line: &'a str) -> (command: Command<&'a str>)
    ensures
        command@ == asked(line@),
{
    let list = text::split_words(line);
    assert(text::contents(list@).len() == list@.len());
    if list.len() == 0 {
        return Command::Nothing;
    }
    let word = list[0];
    assert(text::contents(list@)[0] == word@);
    if text::same_text(word, Wheel::Left.word()) {
        parse_drive(&list, Wheel::Left)
    } else if text::same_text(word, Wheel::Right.word()) {
        parse_drive(&list, Wheel::Right)
    } else if text::same_text(word, "stop") {
        Command::Stop
    } else if text::same_text(word, "alt") {
        match word_u64(&list, 1) {
            Some(ms) => Command::Alt { ms },
            None => Command::Alt { ms: ALT_MS },
        }
    } else if text::same_text(word, "rect") {
        Command::Rect
    } else if text::same_text(word, "set") {
        parse_set(&list)
    } else if text::same_text(word, "get") {
        Command::Get
    } else if text::same_text(word, "help") {
        Command::Help
    } else {
        Command::Unknown(word)
    }
}

/// Tells whether the motors take the speeds that a line asks for, and the times fit.
pub fn command_fits(line: &str, rig: &Rig, tunables: &Tunables) -> (fits: bool)
    ensures
        fits == asked(line@).fits(*rig, *tunables),
{
    match parse_command(line) {
        Command::Drive { wheel, direction, duty } => {
            let pct: u32 = match duty {
                Some(pct) => pct,
                None => tunables.drive_duty,
            };
            direction.dir() == 0 || wheel.takes_duty(rig, pct)
        },
        Command::Alt { .. } => rig.takes_duty(tunables.drive_duty),
        Command::Rect => rig.takes_routine(tunables),
        _ => true,
    }
}

/// One part of the alternating test.
fn drive_alt_part(
    rig: &Rig,
    wheel: Wheel,
    dir: i32,
    duty_pct: u32,
    ms: u64,
    out: &mut Vec<Op>,
)
    requires
        rig.duty_fits(duty_pct),
    ensures
        final(out)@ == old(out)@ + alt_part_ops(*rig, wheel, dir as int, duty_pct, ms),
{
    wheel.drive(rig, dir, duty_pct, out);
    out.push(Op::Wait { ms });
    rig.stop(out);
    out.push(Op::Wait { ms: ALT_PAUSE_MS });
}

/// Answers one line: does to the tunable values what it asks for, and puts the steps for the board
/// behind those in `out`.
pub fn handle_command(
    line: &str,
    rig: &Rig,
    tunables: &mut Tunables,
    out: &mut Vec<Op>,
) -> (reply: String)
    requires
        asked(line@).fits(*rig, *old(tunables)),
    ensures
        reply@ == asked(line@).reply(*old(tunables)),
        *final(tunables) == asked(line@).tuned(*old(tunables)),
        final(out)@ == old(out)@ + asked(line@).ops(*rig, *old(tunables)),
{
    let mut reply = String::new();
    match parse_command(line) {
        Command::Nothing => {},
        Command::Drive { wheel, direction, duty } => {
            let pct: u32 = match duty {
                Some(pct) => pct,
                None => tunables.drive_duty,
            };
            wheel.drive(rig, direction.dir(), pct, out);
            reply.append("ok ");
            reply.append(wheel.word());
            reply.append(" ");
            reply.append(direction.word());
            reply.append(" ");
            text::push_decimal(&mut reply, pct as u64);
        },
        Command::DriveUsage => reply.append("usage: left|right fwd|rev|stop [duty_pct]"),
        Command::BadDirection => reply.append("dir must be fwd, rev, or stop"),
        Command::Stop => {
            rig.stop(out);
            reply.append("ok stop");
        },
        Command::Alt { ms } => {
            let pct: u32 = tunables.drive_duty;
            drive_alt_part(rig, Wheel::Left, 1, pct, ms, out);
            drive_alt_part(rig, Wheel::Left, -1, pct, ms, out);
            drive_alt_part(rig, Wheel::Right, 1, pct, ms, out);
            drive_alt_part(rig, Wheel::Right, -1, pct, ms, out);
            reply.append("ok alt");
        },
        Command::Rect => {
            rig.drive_full_routine(tunables, out);
            reply.append("ok rect");
        },
        Command::Tune { key, value } => {
            tunables.set(key, value);
            reply.append("ok set ");
            reply.append(key.word());
            reply.append(" ");
            text::push_decimal(&mut reply, value);
        },
        Command::SetUsage => reply.append("usage: set <key> <value>"),
        Command::BadValue => reply.append("value must be an integer"),
        Command::UnknownKey(word) => {
            reply.append("unknown key '");
            reply.append(word);
            reply.append("'");
        },
        Command::Get => {
            reply = tunables.list();
        },
        Command::Help => reply.append(
            "commands: left|right fwd|rev|stop [duty]; stop; alt [ms]; rect; set <key> <val>; get; help",
        ),
        Command::Unknown(word) => {
            reply.append("unknown command '");
            reply.append(word);
            reply.append("' (try 'help')");
        },
    }
    reply
}

/// A command that is turned down neither moves the bot nor changes a tunable value.
pub proof fn refusal_changes_nothing(command: Command<Seq<char>>, rig: Rig, tunables: Tunables)
    requires
        command.refused(),
    ensures
        command.ops(rig, tunables) == Seq::<Op>::empty(),
        command.tuned(tunables) == tunables,
{
}

/// Only `set` changes a tunable value, it changes no other than the one it names, and it does not
/// move the bot.
pub proof fn only_set_tunes(command: Command<Seq<char>>, rig: Rig, tunables: Tunables, key: Key)
    ensures
        command.tuned(tunables).at(key) != tunables.at(key) ==> command is Tune && command->key
            == key,
        command is Tune ==> command.ops(rig, tunables) == Seq::<Op>::empty(),
{
}

/// The name of a key names the key.
proof fn lemma_key_named(key: Key)
    ensures
        Key::named(key.name()) == Some(key),
{
    assert(exists|k: Key| key.name() == #[trigger] k.name());
    let found = choose|k: Key| key.name() == #[trigger] k.name();
    crate::tunables::key_names_differ(key, found);
}

/// The commands are told apart by their first word.
proof fn lemma_command_words()
    ensures
        "set"@ != Wheel::Left.name(),
        "set"@ != Wheel::Right.name(),
        "set"@ != "stop"@,
        "set"@ != "alt"@,
        "set"@ != "rect"@,
        "get"@ != Wheel::Left.name(),
        "get"@ != Wheel::Right.name(),
        "get"@ != "stop"@,
        "get"@ != "alt"@,
        "get"@ != "rect"@,
        "get"@ != "set"@,
{
    reveal_strlit("left");
    reveal_strlit("right");
    reveal_strlit("stop");
    reveal_strlit("alt");
    reveal_strlit("rect");
    reveal_strlit("set");
    reveal_strlit("get");
    assert("set"@.len() == 3 && "set"@[0] == 's');
    assert("get"@.len() == 3 && "get"@[0] == 'g');
    assert("alt"@[0] == 'a');
    assert("left"@.len() == 4 && "stop"@.len() == 4 && "rect"@.len() == 4);
    assert("right"@.len() == 5);
}

/// What `set` wrote, `get` reads: after a line that sets a key to a number, however the number is
/// written and whatever follows it, a `get` lists the low 32 bits of that number for the key, which
/// is the number itself where it fits, and for every other key what it held before.
pub proof fn get_reads_what_set_wrote(
    set_line: Seq<char>,
    get_line: Seq<char>,
    tunables: Tunables,
    key: Key,
    value: u64,
)
    requires
        text::words(set_line).len() >= 3,
        text::words(set_line)[0] == "set"@,
        text::words(set_line)[1] == key.name(),
        text::number(text::words(set_line)[2], u64::MAX as nat) == Some(value as nat),
        text::words(get_line).len() >= 1,
        text::words(get_line)[0] == "get"@,
    ensures
        ({
            let kept = (value as nat % 0x1_0000_0000) as u32;
            let tuned = asked(set_line).tuned(tunables);
            &&& asked(set_line) == (Command::Tune::<Seq<char>> { key, value })
            &&& asked(get_line).reply(tuned) == tuned.listing()
            &&& tuned == tunables.with(key, kept)
            &&& tuned.at(key) == kept
            &&& value <= u32::MAX ==> kept == value
            &&& forall|other: Key|
                other != key ==> #[trigger] tuned.at(other) == tunables.at(other)
            &&& tunables::shows(asked(get_line).reply(tuned), key, value as nat % 0x1_0000_0000)
            &&& forall|other: Key|
                other != key ==> tunables::shows(
                    asked(get_line).reply(tuned),
                    other,
                    #[trigger] tunables.at(other) as nat,
                )
        }),
{
    lemma_command_words();
    lemma_key_named(key);
    let kept = (value as nat % 0x1_0000_0000) as u32;
    let tuned = asked(set_line).tuned(tunables);
    assert(tuned == tunables.with(key, kept));
    tunables::listing_reads_back(tuned, key);
    assert forall|other: Key| other != key implies tunables::shows(
        asked(get_line).reply(tuned),
        other,
        #[trigger] tunables.at(other) as nat,
    ) by {
        tunables::listing_reads_back(tuned, other);
        assert(tuned.at(other) == tunables.at(other));
    }
}

/// A driven wheel does what the command says: it turns in the direction given, at the duty given or
/// else at driving speed, and the other wheel goes on as before.
pub proof fn drive_turns_the_wheel(
    rig: Rig,
    board: Board,
    tunables: Tunables,
    wheel: Wheel,
    direction: Direction,
    duty: Option<u32>,
)
    requires
        rig.well_formed(),
    ensures
        ({
            let command = Command::Drive::<Seq<char>> { wheel, direction, duty };
            let other = match wheel {
                Wheel::Left => rig.right,
                Wheel::Right => rig.left,
            };
            let pct = match duty {
                Some(pct) => pct,
                None => tunables.drive_duty,
            };
            let after = board.run(command.ops(rig, tunables));
            &&& motion::motion(after, wheel.motor(rig).wires) == rig::direction(
                direction.sign(),
            )
            &&& after.duty[wheel.motor(rig).wires.pwm] == rig::duty_in(
                wheel.motor(rig),
                direction.sign(),
                pct,
            )
            &&& motion::motion(after, other.wires) == motion::motion(
                board,
                other.wires,
            )
            &&& after.duty[other.wires.pwm] == board.duty[other.wires.pwm]
        }),
{
    let pct = match duty {
        Some(pct) => pct,
        None => tunables.drive_duty,
    };
    match wheel {
        Wheel::Left => rig::left_drive_turns_left_wheel(rig, board, direction.sign(), pct),
        Wheel::Right => rig::right_drive_turns_right_wheel(rig, board, direction.sign(), pct),
    }
}

/// A part of the alternating test ends braked.
proof fn lemma_alt_part(
    rig: Rig,
    board: Board,
    wheel: Wheel,
    dir: int,
    duty_pct: u32,
    ms: u64,
)
    requires
        rig.well_formed(),
    ensures
        rig.braked(board.run(alt_part_ops(rig, wheel, dir, duty_pct, ms))),
{
    let a = wheel.drive_ops(rig, dir, duty_pct) + seq![Op::Wait { ms }];
    let pause = Op::Wait { ms: ALT_PAUSE_MS };
    board::run_in_parts(board, a, rig.stop_ops());
    board::run_in_parts(board, a + rig.stop_ops(), seq![pause]);
    board::run_one(board.run(a + rig.stop_ops()), pause);
    rig::stop_brakes(rig, board.run(a));
}

/// The phases of one part of the alternating test.
proof fn lemma_alt_part_phases(
    rig: Rig,
    board: Board,
    wheel: Wheel,
    dir: int,
    duty_pct: u32,
    ms: u64,
)
    requires
        rig.well_formed(),
        rig.braked(board),
    ensures
        rig.phases(board, alt_part_ops(rig, wheel, dir, duty_pct, ms)) == alt_part_phases(
            wheel,
            dir,
            ms,
        ),
{
    let l = rig.left.wires;
    let r = rig.right.wires;
    let a = wheel.drive_ops(rig, dir, duty_pct);
    let b = seq![Op::Wait { ms }];
    let c = rig.stop_ops();
    let d = seq![Op::Wait { ms: ALT_PAUSE_MS }];
    rig::left_drive_turns_left_wheel(rig, board, dir, duty_pct);
    rig::right_drive_turns_right_wheel(rig, board, dir, duty_pct);
    motion::no_wait_no_phase(board, l, r, a);
    motion::one_wait_one_phase(board.run(a), l, r, ms);
    motion::no_wait_no_phase(board.run(a + b), l, r, c);
    rig::stop_brakes(rig, board.run(a + b));
    board::run_in_parts(board, a + b, c);
    motion::one_wait_one_phase(board.run(a + b + c), l, r, ALT_PAUSE_MS);
    motion::phases_in_parts(board, l, r, a, b);
    motion::phases_in_parts(board, l, r, a + b, c);
    motion::phases_in_parts(board, l, r, a + b + c, d);
}

/// One wheel turns while the other rests, and then both rest.
pub open spec fn alt_part_phases(wheel: Wheel, dir: int, ms: u64) -> Seq<Phase> {
    seq![
        match wheel {
            Wheel::Left => Phase {
                left: rig::direction(dir),
                right: Motion::Brake,
                ms: ms as nat,
            },
            Wheel::Right => Phase {
                left: Motion::Brake,
                right: rig::direction(dir),
                ms: ms as nat,
            },
        },
        motion::rest_phase(ALT_PAUSE_MS as nat),
    ]
}

/// From a standstill the alternating test turns one wheel at a time: left forward, left back, right
/// forward, right back, one lap.
pub proof fn alt_turns_one_wheel_at_a_time(
    rig: Rig,
    board: Board,
    tunables: Tunables,
    ms: u64,
)
    requires
        rig.well_formed(),
        rig.braked(board),
    ensures
        rig.phases(board, Command::Alt::<Seq<char>> { ms }.ops(rig, tunables)) == alt_part_phases(
            Wheel::Left,
            1,
            ms,
        ) + alt_part_phases(Wheel::Left, -1, ms) + alt_part_phases(Wheel::Right, 1, ms)
            + alt_part_phases(Wheel::Right, -1, ms),
{
    let l = rig.left.wires;
    let r = rig.right.wires;
    let pct = tunables.drive_duty;
    let a = alt_part_ops(rig, Wheel::Left, 1, pct, ms);
    let b = alt_part_ops(rig, Wheel::Left, -1, pct, ms);
    let c = alt_part_ops(rig, Wheel::Right, 1, pct, ms);
    let d = alt_part_ops(rig, Wheel::Right, -1, pct, ms);
    lemma_alt_part(rig, board, Wheel::Left, 1, pct, ms);
    lemma_alt_part(rig, board.run(a), Wheel::Left, -1, pct, ms);
    lemma_alt_part(rig, board.run(a + b), Wheel::Right, 1, pct, ms);
    board::run_in_parts(board, a, b);
    board::run_in_parts(board, a + b, c);
    lemma_alt_part_phases(rig, board, Wheel::Left, 1, pct, ms);
    lemma_alt_part_phases(rig, board.run(a), Wheel::Left, -1, pct, ms);
    lemma_alt_part_phases(rig, board.run(a + b), Wheel::Right, 1, pct, ms);
    lemma_alt_part_phases(rig, board.run(a + b + c), Wheel::Right, -1, pct, ms);
    motion::phases_in_parts(board, l, r, a, b);
    motion::phases_in_parts(board, l, r, a + b, c);
    motion::phases_in_parts(board, l, r, a + b + c, d);
}

/// `stop`, `alt` and `rect` end with the bot braked, whatever it was doing before.
pub proof fn command_ends_braked(
    command: Command<Seq<char>>,
    rig: Rig,
    board: Board,
    tunables: Tunables,
)
    requires
        rig.well_formed(),
        command is Stop || command is Alt || command is Rect,
        command.fits(rig, tunables),
    ensures
        rig.braked(board.run(command.ops(rig, tunables))),
{
    match command {
        Command::Stop => rig::stop_brakes(rig, board),
        Command::Alt { ms } => {
            let pct = tunables.drive_duty;
            let a = alt_part_ops(rig, Wheel::Left, 1, pct, ms) + alt_part_ops(
                rig,
                Wheel::Left,
                -1,
                pct,
                ms,
            ) + alt_part_ops(rig, Wheel::Right, 1, pct, ms);
            board::run_in_parts(board, a, alt_part_ops(rig, Wheel::Right, -1, pct, ms));
            lemma_alt_part(rig, board.run(a), Wheel::Right, -1, pct, ms);
        },
        Command::Rect => rig::routine_is_driven(rig, board, tunables),
        _ => {},
    }
}

/// Every command leaves a consistent bot consistent: no motor with both direction lines high, and
/// the LED lit if and only if the right wheel is commanded to turn.
pub proof fn command_keeps_consistent(
    command: Command<Seq<char>>,
    rig: Rig,
    board: Board,
    tunables: Tunables,
)
    requires
        rig.well_formed(),
        rig.consistent(board),
        command.fits(rig, tunables),
    ensures
        rig.consistent(board.run(command.ops(rig, tunables))),
{
    match command {
        Command::Drive { wheel, direction, duty } => {
            let pct = match duty {
                Some(pct) => pct,
                None => tunables.drive_duty,
            };
            match wheel {
                Wheel::Left => rig::left_drive_turns_left_wheel(rig, board, direction.sign(), pct),
                Wheel::Right => rig::right_drive_turns_right_wheel(
                    rig,
                    board,
                    direction.sign(),
                    pct,
                ),
            }
        },
        Command::Stop => command_ends_braked(command, rig, board, tunables),
        Command::Alt { .. } => command_ends_braked(command, rig, board, tunables),
        Command::Rect => command_ends_braked(command, rig, board, tunables),
        _ => {},
    }
}

/// The waits of one part of the alternating test.
proof fn lemma_alt_part_in_waits(
    rig: Rig,
    board: Board,
    wheel: Wheel,
    dir: int,
    duty_pct: u32,
    ms: u64,
)
    requires
        rig.well_formed(),
        rig.consistent(board),
    ensures
        rig.consistent_in_waits(board, alt_part_ops(rig, wheel, dir, duty_pct, ms)),
{
    let a = wheel.drive_ops(rig, dir, duty_pct);
    let b = seq![Op::Wait { ms }];
    let c = rig.stop_ops();
    let d = seq![Op::Wait { ms: ALT_PAUSE_MS }];
    rig::left_drive_turns_left_wheel(rig, board, dir, duty_pct);
    rig::right_drive_turns_right_wheel(rig, board, dir, duty_pct);
    rig::one_wait_is_consistent(rig, board.run(a), ms);
    rig::stop_brakes(rig, board.run(a + b));
    board::run_in_parts(board, a + b, c);
    rig::one_wait_is_consistent(rig, board.run(a + b + c), ALT_PAUSE_MS);
    rig::consistent_in_parts(rig, board, a, b);
    rig::consistent_in_parts(rig, board, a + b, c);
    rig::consistent_in_parts(rig, board, a + b + c, d);
}

/// While a command is carried out too, in every wait, the LED is lit if and only if the right wheel
/// is commanded to turn, and no motor has both direction lines high, if it was so before.
pub proof fn command_is_consistent_in_waits(
    command: Command<Seq<char>>,
    rig: Rig,
    board: Board,
    tunables: Tunables,
)
    requires
        rig.well_formed(),
        rig.consistent(board),
        command.fits(rig, tunables),
    ensures
        rig.consistent_in_waits(board, command.ops(rig, tunables)),
{
    match command {
        Command::Alt { ms } => {
            let pct = tunables.drive_duty;
            let a = alt_part_ops(rig, Wheel::Left, 1, pct, ms);
            let b = alt_part_ops(rig, Wheel::Left, -1, pct, ms);
            let c = alt_part_ops(rig, Wheel::Right, 1, pct, ms);
            let d = alt_part_ops(rig, Wheel::Right, -1, pct, ms);
            lemma_alt_part(rig, board, Wheel::Left, 1, pct, ms);
            lemma_alt_part(rig, board.run(a), Wheel::Left, -1, pct, ms);
            lemma_alt_part(rig, board.run(a + b), Wheel::Right, 1, pct, ms);
            board::run_in_parts(board, a, b);
            board::run_in_parts(board, a + b, c);
            lemma_alt_part_in_waits(rig, board, Wheel::Left, 1, pct, ms);
            lemma_alt_part_in_waits(rig, board.run(a), Wheel::Left, -1, pct, ms);
            lemma_alt_part_in_waits(rig, board.run(a + b), Wheel::Right, 1, pct, ms);
            lemma_alt_part_in_waits(rig, board.run(a + b + c), Wheel::Right, -1, pct, ms);
            rig::consistent_in_parts(rig, board, a, b);
            rig::consistent_in_parts(rig, board, a + b, c);
            rig::consistent_in_parts(rig, board, a + b + c, d);
        },
        Command::Rect => rig::routine_is_consistent_in_waits(rig, board, tunables),
        _ => {},
    }
}

/// One part of the alternating test, step by step.
proof fn lemma_alt_part_lit(
    rig: Rig,
    board: Board,
    wheel: Wheel,
    dir: int,
    duty_pct: u32,
    ms: u64,
)
    requires
        rig.well_formed(),
        rig.lit(board),
    ensures
        rig.lit_throughout(board, alt_part_ops(rig, wheel, dir, duty_pct, ms)),
{
    let a = wheel.drive_ops(rig, dir, duty_pct);
    let b = seq![Op::Wait { ms }];
    let c = rig.stop_ops();
    let d = seq![Op::Wait { ms: ALT_PAUSE_MS }];
    rig::left_drive_keeps_lit(rig, board, dir, duty_pct);
    rig::right_drive_keeps_lit(rig, board, dir, duty_pct);
    rig::lit_at_the_end(rig, board, a);
    rig::lit_in_wait(rig, board.run(a), ms);
    rig::lit_in_parts(rig, board, a, b);
    rig::lit_at_the_end(rig, board, a + b);
    rig::stop_keeps_lit(rig, board.run(a + b));
    rig::lit_in_parts(rig, board, a + b, c);
    rig::lit_at_the_end(rig, board, a + b + c);
    rig::lit_in_wait(rig, board.run(a + b + c), ALT_PAUSE_MS);
    rig::lit_in_parts(rig, board, a + b + c, d);
}

/// At every single step of a command the LED is lit whenever the right wheel is commanded to turn,
/// if it was so before.
pub proof fn command_keeps_lit(
    command: Command<Seq<char>>,
    rig: Rig,
    board: Board,
    tunables: Tunables,
)
    requires
        rig.well_formed(),
        rig.lit(board),
    ensures
        rig.lit_throughout(board, command.ops(rig, tunables)),
{
    match command {
        Command::Drive { wheel, direction, duty } => {
            let pct = match duty {
                Some(pct) => pct,
                None => tunables.drive_duty,
            };
            rig::left_drive_keeps_lit(rig, board, direction.sign(), pct);
            rig::right_drive_keeps_lit(rig, board, direction.sign(), pct);
        },
        Command::Stop => rig::stop_keeps_lit(rig, board),
        Command::Alt { ms } => {
            let pct = tunables.drive_duty;
            let a = alt_part_ops(rig, Wheel::Left, 1, pct, ms);
            let b = alt_part_ops(rig, Wheel::Left, -1, pct, ms);
            let c = alt_part_ops(rig, Wheel::Right, 1, pct, ms);
            let d = alt_part_ops(rig, Wheel::Right, -1, pct, ms);
            lemma_alt_part_lit(rig, board, Wheel::Left, 1, pct, ms);
            rig::lit_at_the_end(rig, board, a);
            lemma_alt_part_lit(rig, board.run(a), Wheel::Left, -1, pct, ms);
            rig::lit_in_parts(rig, board, a, b);
            rig::lit_at_the_end(rig, board, a + b);
            lemma_alt_part_lit(rig, board.run(a + b), Wheel::Right, 1, pct, ms);
            rig::lit_in_parts(rig, board, a + b, c);
            rig::lit_at_the_end(rig, board, a + b + c);
            lemma_alt_part_lit(rig, board.run(a + b + c), Wheel::Right, -1, pct, ms);
            rig::lit_in_parts(rig, board, a + b + c, d);
        },
        Command::Rect => rig::routine_keeps_lit(rig, board, tunables),
        _ => {
            assert forall|i: int| 0 <= i <= 0 implies rig.lit(
                #[trigger] board.run(command.ops(rig, tunables).take(i)),
            ) by {
                assert(command.ops(rig, tunables).take(i) == Seq::<Op>::empty());
            }
        },
    }
}

/// Whitespace around a line changes nothing of what it asks for.
pub proof fn surrounding_space_asks_nothing(before: Seq<char>, line: Seq<char>, after: Seq<char>)
    requires
        forall|i: int| 0 <= i < before.len() ==> text::is_space(#[trigger] before[i]),
        forall|i: int| 0 <= i < after.len() ==> text::is_space(#[trigger] after[i]),
    ensures
        asked(before + line + after) == asked(line),
{
    text::surrounding_space_is_ignored(before, line, after);
}

/// Whether `s` stays on one line.
pub open spec fn one_line(s: Seq<char>) -> bool {
    forall|i: int| 0 <= i < s.len() ==> #[trigger] s[i] != '\n'
}

/// Nothing that is a word breaks the line.
proof fn lemma_solid_is_one_line(s: Seq<char>)
    requires
        text::is_solid(s),
    ensures
        one_line(s),
{
    assert forall|i: int| 0 <= i < s.len() implies #[trigger] s[i] != '\n' by {
        assert(!text::is_space(s[i]));
    }
}

/// The fixed parts of the answers stay on one line.
proof fn lemma_fixed_parts()
    ensures
        one_line("ok "@),
        one_line(" "@),
        one_line("usage: left|right fwd|rev|stop [duty_pct]"@),
        one_line("dir must be fwd, rev, or stop"@),
        one_line("ok stop"@),
        one_line("ok alt"@),
        one_line("ok rect"@),
        one_line("ok set "@),
        one_line("usage: set <key> <value>"@),
        one_line("value must be an integer"@),
        one_line("unknown key '"@),
        one_line("'"@),
        one_line("unknown command '"@),
        one_line("' (try 'help')"@),
{
    reveal_strlit("ok ");
    reveal_strlit(" ");
    reveal_strlit("usage: left|right fwd|rev|stop [duty_pct]");
    reveal_strlit("dir must be fwd, rev, or stop");
    reveal_strlit("ok stop");
    reveal_strlit("ok alt");
    reveal_strlit("ok rect");
    reveal_strlit("ok set ");
    reveal_strlit("usage: set <key> <value>");
    reveal_strlit("value must be an integer");
    reveal_strlit("unknown key '");
    reveal_strlit("'");
    reveal_strlit("unknown command '");
    reveal_strlit("' (try 'help')");
}

/// The names in the answers stay on one line.
proof fn lemma_names(wheel: Wheel, direction: Direction, key: Key)
    ensures
        one_line(wheel.name()),
        one_line(direction.name()),
        one_line(key.name()),
{
    reveal_strlit("left");
    reveal_strlit("right");
    reveal_strlit("fwd");
    reveal_strlit("rev");
    reveal_strlit("stop");
    reveal_strlit("drive_duty");
    reveal_strlit("turn_duty");
    reveal_strlit("long_leg_ms");
    reveal_strlit("short_leg_ms");
    reveal_strlit("turn90_ms");
    reveal_strlit("settle_ms");
}

/// A number stays on one line.
proof fn lemma_decimal_is_one_line(n: nat)
    ensures
        one_line(text::decimal(n)),
{
    text::decimal_is_solid(n);
    lemma_solid_is_one_line(text::decimal(n));
}

/// The list of the values stays on one line.
proof fn lemma_listing_is_one_line(tunables: Tunables)
    ensures
        one_line(tunables.listing()),
{
    reveal_strlit("drive_duty=");
    reveal_strlit(" turn_duty=");
    reveal_strlit(" long_leg_ms=");
    reveal_strlit(" short_leg_ms=");
    reveal_strlit(" turn90_ms=");
    reveal_strlit(" settle_ms=");
    assert(one_line("drive_duty="@));
    assert(one_line(" turn_duty="@));
    assert(one_line(" long_leg_ms="@));
    assert(one_line(" short_leg_ms="@));
    assert(one_line(" turn90_ms="@));
    assert(one_line(" settle_ms="@));
    lemma_decimal_is_one_line(tunables.drive_duty as nat);
    lemma_decimal_is_one_line(tunables.turn_duty as nat);
    lemma_decimal_is_one_line(tunables.long_leg_ms as nat);
    lemma_decimal_is_one_line(tunables.short_leg_ms as nat);
    lemma_decimal_is_one_line(tunables.turn_90_ms as nat);
    lemma_decimal_is_one_line(tunables.settle_ms as nat);
}

/// Every line is answered by one line: no answer holds a line break.
pub proof fn reply_is_one_line(line: Seq<char>, tunables: Tunables)
    ensures
        one_line(asked(line).reply(tunables)),
{
    let w = text::words(line);
    lemma_fixed_parts();
    text::words_are_solid(line);
    match asked(line) {
        Command::Drive { wheel, direction, duty } => {
            let pct = match duty {
                Some(pct) => pct,
                None => tunables.drive_duty,
            };
            lemma_names(wheel, direction, Key::DriveDuty);
            lemma_decimal_is_one_line(pct as nat);
        },
        Command::Tune { key, value } => {
            lemma_names(Wheel::Left, Direction::Stop, key);
            lemma_decimal_is_one_line(value as nat);
        },
        Command::UnknownKey(word) => {
            assert(word == w[1]);
            lemma_solid_is_one_line(word);
        },
        Command::Unknown(word) => {
            assert(word == w[0]);
            lemma_solid_is_one_line(word);
        },
        Command::Get => lemma_listing_is_one_line(tunables),
        Command::Help => {
            reveal_strlit(
                "commands: left|right fwd|rev|stop [duty]; stop; alt [ms]; rect; set <key> <val>; get; help",
            );
        },
        _ => {},
    }
}

/// No two of the words that commands are told by are the same.
proof fn lemma_words_differ()
    ensures
        "left"@ != "right"@,
        "left"@ != "stop"@,
        "left"@ != "alt"@,
        "left"@ != "rect"@,
        "left"@ != "set"@,
        "left"@ != "get"@,
        "left"@ != "help"@,
        "right"@ != "stop"@,
        "right"@ != "alt"@,
        "right"@ != "rect"@,
        "right"@ != "set"@,
        "right"@ != "get"@,
        "right"@ != "help"@,
        "stop"@ != "alt"@,
        "stop"@ != "rect"@,
        "stop"@ != "set"@,
        "stop"@ != "get"@,
        "stop"@ != "help"@,
        "alt"@ != "rect"@,
        "alt"@ != "set"@,
        "alt"@ != "get"@,
        "alt"@ != "help"@,
        "rect"@ != "set"@,
        "rect"@ != "get"@,
        "rect"@ != "help"@,
        "set"@ != "get"@,
        "set"@ != "help"@,
        "get"@ != "help"@,
        "fwd"@ != "rev"@,
        "fwd"@ != "stop"@,
        "rev"@ != "stop"@,
{
    reveal_strlit("left");
    reveal_strlit("right");
    reveal_strlit("stop");
    reveal_strlit("alt");
    reveal_strlit("rect");
    reveal_strlit("set");
    reveal_strlit("get");
    reveal_strlit("help");
    reveal_strlit("fwd");
    reveal_strlit("rev");
    assert("left"@.len() == 4 && "stop"@.len() == 4 && "rect"@.len() == 4 && "help"@.len() == 4);
    assert("set"@.len() == 3 && "get"@.len() == 3 && "alt"@.len() == 3);
    assert("fwd"@.len() == 3 && "rev"@.len() == 3);
    assert("right"@.len() == 5);
    assert("left"@[0] == 'l' && "stop"@[0] == 's' && "rect"@[0] == 'r' && "help"@[0] == 'h');
    assert("set"@[0] == 's' && "get"@[0] == 'g' && "alt"@[0] == 'a');
    assert("fwd"@[0] == 'f' && "rev"@[0] == 'r');
}

/// A line whose first word is a wheel and whose second word is a direction asks to drive that very
/// wheel in that very direction, whatever follows, at the duty that the third word writes out if it
/// is a number of 32 bits, and else at none in particular.
pub proof fn drive_line_asks_to_drive(line: Seq<char>, wheel: Wheel, direction: Direction)
    requires
        text::words(line).len() >= 2,
        text::words(line)[0] == (match wheel {
            Wheel::Left => "left"@,
            Wheel::Right => "right"@,
        }),
        text::words(line)[1] == (match direction {
            Direction::Forward => "fwd"@,
            Direction::Reverse => "rev"@,
            Direction::Stop => "stop"@,
        }),
    ensures
        asked(line) is Drive,
        asked(line)->wheel == wheel,
        asked(line)->direction == direction,
        asked(line)->duty is Some <==> text::words(line).len() >= 3 && text::number(
            text::words(line)[2],
            0xffff_ffff,
        ) is Some,
        asked(line)->duty is Some ==> text::number(text::words(line)[2], 0xffff_ffff) == Some(
            asked(line)->duty->0 as nat,
        ),
{
    lemma_words_differ();
}

/// A wheel alone is answered with how to write it, and a wheel with anything but a direction with
/// what directions there are.
pub proof fn wheel_without_direction_is_refused(line: Seq<char>, tunables: Tunables)
    requires
        text::words(line).len() >= 1,
        text::words(line)[0] == "left"@ || text::words(line)[0] == "right"@,
    ensures
        text::words(line).len() == 1 ==> asked(line) is DriveUsage && asked(line).reply(tunables)
            == "usage: left|right fwd|rev|stop [duty_pct]"@,
        text::words(line).len() >= 2 && text::words(line)[1] != "fwd"@ && text::words(line)[1]
            != "rev"@ && text::words(line)[1] != "stop"@ ==> asked(line) is BadDirection && asked(
            line,
        ).reply(tunables) == "dir must be fwd, rev, or stop"@,
{
    lemma_words_differ();
}

/// `stop`, `rect`, `get` and `help` are told by their first word, whatever follows, and are answered
/// each in its way.
pub proof fn plain_commands_are_told_by_their_word(line: Seq<char>, tunables: Tunables)
    requires
        text::words(line).len() >= 1,
    ensures
        asked(line) is Stop <==> text::words(line)[0] == "stop"@,
        asked(line) is Rect <==> text::words(line)[0] == "rect"@,
        asked(line) is Get <==> text::words(line)[0] == "get"@,
        asked(line) is Help <==> text::words(line)[0] == "help"@,
        asked(line) is Alt <==> text::words(line)[0] == "alt"@,
        text::words(line)[0] == "stop"@ ==> asked(line).reply(tunables) == "ok stop"@,
        text::words(line)[0] == "rect"@ ==> asked(line).reply(tunables) == "ok rect"@,
        text::words(line)[0] == "alt"@ ==> asked(line).reply(tunables) == "ok alt"@,
        text::words(line)[0] == "help"@ ==> asked(line).reply(tunables)
            == "commands: left|right fwd|rev|stop [duty]; stop; alt [ms]; rect; set <key> <val>; get; help"@,
{
    lemma_words_differ();
}

/// `get` is answered by the value of every key.
pub proof fn get_shows_every_value(line: Seq<char>, tunables: Tunables, key: Key)
    requires
        text::words(line).len() >= 1,
        text::words(line)[0] == "get"@,
    ensures
        tunables::shows(asked(line).reply(tunables), key, tunables.at(key) as nat),
        text::words(asked(line).reply(tunables)).len() == 6,
{
    lemma_words_differ();
    tunables::listing_reads_back(tunables, key);
}

/// `alt` asks for the time that its second word writes out, if it is a number of 64 bits, and else
/// for a second.
pub proof fn alt_line_asks_for_its_time(line: Seq<char>)
    requires
        text::words(line).len() >= 1,
        text::words(line)[0] == "alt"@,
    ensures
        asked(line) is Alt,
        ({
            let given = text::words(line).len() >= 2 && text::number(
                text::words(line)[1],
                0xffff_ffff_ffff_ffff,
            ) is Some;
            &&& given ==> text::number(text::words(line)[1], 0xffff_ffff_ffff_ffff) == Some(
                asked(line)->ms as nat,
            )
            &&& !given ==> asked(line)->ms == 1000
        }),
{
    lemma_words_differ();
}

/// `set` without both a key and a value is answered with how to write it, with a value that is no
/// number of 64 bits with that, and with a word that is no key's name with that word. Only where
/// none of these holds does it set the key that it names.
pub proof fn set_line_sets_or_is_refused(line: Seq<char>, tunables: Tunables)
    requires
        text::words(line).len() >= 1,
        text::words(line)[0] == "set"@,
    ensures
        ({
            let w = text::words(line);
            let value = text::number(w[2], 0xffff_ffff_ffff_ffff);
            let reply = asked(line).reply(tunables);
            &&& w.len() < 3 ==> asked(line) is SetUsage && reply == "usage: set <key> <value>"@
            &&& w.len() >= 3 && value is None ==> asked(line) is BadValue && reply
                == "value must be an integer"@
            &&& w.len() >= 3 && value is Some && (forall|key: Key| w[1] != #[trigger] key.name())
                ==> asked(line) is UnknownKey && reply == "unknown key '"@ + w[1] + "'"@
            &&& forall|key: Key|
                w.len() >= 3 && value is Some && w[1] == #[trigger] key.name() ==> {
                    &&& asked(line) is Tune
                    &&& asked(line)->key == key
                    &&& asked(line)->value as nat == value->0
                    &&& asked(line).tuned(tunables).at(key) as nat == value->0 % 0x1_0000_0000
                    &&& forall|other: Key|
                        other != key ==> #[trigger] asked(line).tuned(tunables).at(other)
                            == tunables.at(other)
                }
        }),
{
    lemma_words_differ();
    let w = text::words(line);
    assert forall|key: Key| w[1] == #[trigger] key.name() implies Key::named(w[1]) == Some(key) by {
        tunables::named_by_name_alone(w[1], key);
    }
}

/// A line without a word asks for nothing and is answered with nothing, and one whose first word is
/// no command is answered with that word.
pub proof fn other_lines_ask_nothing(line: Seq<char>, tunables: Tunables)
    ensures
        ({
            let w = text::words(line);
            let known = w.len() > 0 && (w[0] == "left"@ || w[0] == "right"@ || w[0] == "stop"@
                || w[0] == "alt"@ || w[0] == "rect"@ || w[0] == "set"@ || w[0] == "get"@ || w[0]
                == "help"@);
            let reply = asked(line).reply(tunables);
            &&& w.len() == 0 ==> asked(line) is Nothing && reply.len() == 0
            &&& w.len() > 0 && !known ==> asked(line) is Unknown && reply == "unknown command '"@
                + w[0] + "' (try 'help')"@
        }),
{
}

/// What is read of a line is what is carried out: reading changes neither the command nor anything
/// in it, and quotes words as they stand.
pub proof fn view_keeps_the_command(command: Command<&str>)
    ensures
        command@ is Nothing <==> command is Nothing,
        command@ is Drive <==> command is Drive,
        command is Drive ==> command@->wheel == command->wheel && command@->direction
            == command->direction && command@->duty == command->duty,
        command@ is DriveUsage <==> command is DriveUsage,
        command@ is BadDirection <==> command is BadDirection,
        command@ is Stop <==> command is Stop,
        command@ is Alt <==> command is Alt,
        command is Alt ==> command@->ms == command->ms,
        command@ is Rect <==> command is Rect,
        command@ is Tune <==> command is Tune,
        command is Tune ==> command@->key == command->key && command@->value == command->value,
        command@ is SetUsage <==> command is SetUsage,
        command@ is BadValue <==> command is BadValue,
        command@ is UnknownKey <==> command is UnknownKey,
        command is UnknownKey ==> command@->UnknownKey_0 == command->UnknownKey_0@,
        command@ is Get <==> command is Get,
        command@ is Help <==> command is Help,
        command@ is Unknown <==> command is Unknown,
        command is Unknown ==> command@->Unknown_0 == command->Unknown_0@,
{
}

/// The words of a text that is written with a single space between two words.
proof fn lemma_next_word(front: Seq<char>, word: Seq<char>)
    requires
        word.len() > 0,
        text::is_solid(word),
    ensures
        text::words(front + " "@ + word) == text::words(front).push(word),
{
    reveal_strlit(" ");
    text::solid_text_is_one_word(word);
    text::space_separates_words(front, ' ', word);
    assert(" "@ == seq![' ']);
    assert(text::words(front) + seq![word] == text::words(front).push(word));
}

/// A driven wheel is answered by `ok`, the wheel and the direction as the line named them, and the
/// duty: the one that the line gave, or else the driving speed.
pub proof fn drive_is_answered_by_what_is_done(
    line: Seq<char>,
    tunables: Tunables,
    wheel: Wheel,
    direction: Direction,
)
    requires
        text::words(line).len() >= 2,
        text::words(line)[0] == (match wheel {
            Wheel::Left => "left"@,
            Wheel::Right => "right"@,
        }),
        text::words(line)[1] == (match direction {
            Direction::Forward => "fwd"@,
            Direction::Reverse => "rev"@,
            Direction::Stop => "stop"@,
        }),
    ensures
        ({
            let w = text::words(line);
            let answer = text::words(asked(line).reply(tunables));
            let given = w.len() >= 3 && text::number(w[2], 0xffff_ffff) is Some;
            &&& answer.len() == 4
            &&& answer[0] == "ok"@
            &&& answer[1] == w[0]
            &&& answer[2] == w[1]
            &&& text::number(answer[3], 0xffff_ffff) == (if given {
                text::number(w[2], 0xffff_ffff)
            } else {
                Some(tunables.drive_duty as nat)
            })
        }),
{
    drive_line_asks_to_drive(line, wheel, direction);
    let duty = asked(line)->duty;
    let pct = match duty {
        Some(pct) => pct,
        None => tunables.drive_duty,
    };
    let number = text::decimal(pct as nat);
    reveal_strlit("ok ");
    reveal_strlit("ok");
    reveal_strlit(" ");
    reveal_strlit("left");
    reveal_strlit("right");
    reveal_strlit("fwd");
    reveal_strlit("rev");
    reveal_strlit("stop");
    text::decimal_is_solid(pct as nat);
    text::decimal_reads_back(pct as nat, 0xffff_ffff);
    text::solid_text_is_one_word("ok"@);
    let a = "ok"@ + " "@ + wheel.name();
    let b = a + " "@ + direction.name();
    lemma_next_word("ok"@, wheel.name());
    lemma_next_word(a, direction.name());
    lemma_next_word(b, number);
    assert("ok "@ == "ok"@ + " "@);
    assert(asked(line).reply(tunables) == b + " "@ + number);
}

/// A key that was set is answered by `ok`, `set`, the key as the line named it, and the number that
/// the line gave.
pub proof fn set_is_answered_by_what_is_done(line: Seq<char>, tunables: Tunables, key: Key)
    requires
        text::words(line).len() >= 3,
        text::words(line)[0] == "set"@,
        text::words(line)[1] == key.name(),
        text::number(text::words(line)[2], 0xffff_ffff_ffff_ffff) is Some,
    ensures
        ({
            let w = text::words(line);
            let answer = text::words(asked(line).reply(tunables));
            &&& answer.len() == 4
            &&& answer[0] == "ok"@
            &&& answer[1] == "set"@
            &&& answer[2] == w[1]
            &&& text::number(answer[3], 0xffff_ffff_ffff_ffff) == text::number(
                w[2],
                0xffff_ffff_ffff_ffff,
            )
        }),
{
    set_line_sets_or_is_refused(line, tunables);
    assert(asked(line) is Tune);
    let value = asked(line)->value;
    let number = text::decimal(value as nat);
    reveal_strlit("ok set ");
    reveal_strlit("ok");
    reveal_strlit("set");
    reveal_strlit(" ");
    tunables::names_are_words(key);
    text::decimal_is_solid(value as nat);
    text::decimal_reads_back(value as nat, 0xffff_ffff_ffff_ffff);
    text::solid_text_is_one_word("ok"@);
    let a = "ok"@ + " "@ + "set"@;
    let b = a + " "@ + key.name();
    lemma_next_word("ok"@, "set"@);
    lemma_next_word(a, key.name());
    lemma_next_word(b, number);
    assert("ok set "@ == a + " "@);
    assert(asked(line).reply(tunables) == b + " "@ + number);
}

/// The board once one wheel has been driven, and every other line left as it was. The LED goes with
/// the right wheel.
pub open spec fn driven(
    rig: Rig,
    board: Board,
    wheel: Wheel,
    direction: Direction,
    duty_pct: u32,
) -> Board {
    let in1 = match direction {
        Direction::Forward => Level::High,
        _ => Level::Low,
    };
    let in2 = match direction {
        Direction::Reverse => Level::High,
        _ => Level::Low,
    };
    let led = match direction {
        Direction::Stop => Level::Low,
        _ => Level::High,
    };
    match wheel {
        Wheel::Left => Board {
            level: board.level.insert(rig.left.wires.in1, in1).insert(rig.left.wires.in2, in2),
            duty: board.duty.insert(
                rig.left.wires.pwm,
                match direction {
                    Direction::Stop => Duty::Counts(0),
                    _ => Duty::Counts((rig.left.max_duty * duty_pct / 100) as u32),
                },
            ),
        },
        Wheel::Right => Board {
            level: board.level.insert(rig.right.wires.in1, in1).insert(
                rig.right.wires.in2,
                in2,
            ).insert(rig.right_led, led),
            duty: board.duty.insert(
                rig.right.wires.pwm,
                match direction {
                    Direction::Stop => Duty::Counts(0),
                    _ => Duty::Counts((rig.right.max_duty * duty_pct / 100) as u32),
                },
            ),
        },
    }
}

/// A driven wheel has its first direction line high if and only if it goes forward, its second one
/// if and only if it goes back, and its share of the full duty, or none when it is stopped. The LED
/// is lit by the right wheel alone. Every line of the other wheel is as it was.
pub proof fn driven_line_by_line(
    rig: Rig,
    board: Board,
    wheel: Wheel,
    direction: Direction,
    duty_pct: u32,
)
    requires
        rig.well_formed(),
    ensures
        ({
            let after = driven(rig, board, wheel, direction, duty_pct);
            let (motor, other) = match wheel {
                Wheel::Left => (rig.left, rig.right),
                Wheel::Right => (rig.right, rig.left),
            };
            &&& after.level[motor.wires.in1] == Level::High <==> direction is Forward
            &&& after.level[motor.wires.in2] == Level::High <==> direction is Reverse
            &&& direction is Stop ==> after.duty[motor.wires.pwm] == Duty::Counts(0)
            &&& !(direction is Stop) ==> after.duty[motor.wires.pwm] == Duty::Counts(
                (motor.max_duty * duty_pct / 100) as u32,
            )
            &&& wheel is Right ==> (after.level[rig.right_led] == Level::High <==> !(
            direction is Stop))
            &&& wheel is Left ==> after.level[rig.right_led] == board.level[rig.right_led]
            &&& after.level[other.wires.in1] == board.level[other.wires.in1]
            &&& after.level[other.wires.in2] == board.level[other.wires.in2]
            &&& after.duty[other.wires.pwm] == board.duty[other.wires.pwm]
        }),
{
}

/// The steps that drive a wheel.
proof fn lemma_driven(
    rig: Rig,
    board: Board,
    wheel: Wheel,
    direction: Direction,
    duty_pct: u32,
)
    requires
        rig.well_formed(),
    ensures
        board.run(wheel.drive_ops(rig, direction.sign(), duty_pct)) == driven(
            rig,
            board,
            wheel,
            direction,
            duty_pct,
        ),
        board::holds(board, wheel.drive_ops(rig, direction.sign(), duty_pct)) == Seq::<
            Hold,
        >::empty(),
{
    match wheel {
        Wheel::Left => rig::left_drive_sets_left_lines(rig, board, direction.sign(), duty_pct),
        Wheel::Right => rig::right_drive_sets_right_lines(rig, board, direction.sign(), duty_pct),
    }
}

/// A line that names a wheel and a direction drives that wheel in that direction, at the duty that
/// the third word writes out or else at driving speed, and does nothing else: every other line of
/// the board is as it was, and no time passes.
pub proof fn drive_line_drives_the_wheel(
    line: Seq<char>,
    rig: Rig,
    board: Board,
    tunables: Tunables,
    wheel: Wheel,
    direction: Direction,
)
    requires
        rig.well_formed(),
        text::words(line).len() >= 2,
        text::words(line)[0] == (match wheel {
            Wheel::Left => "left"@,
            Wheel::Right => "right"@,
        }),
        text::words(line)[1] == (match direction {
            Direction::Forward => "fwd"@,
            Direction::Reverse => "rev"@,
            Direction::Stop => "stop"@,
        }),
    ensures
        ({
            let w = text::words(line);
            let given = w.len() >= 3 && text::number(w[2], 0xffff_ffff) is Some;
            let pct = if given {
                text::number(w[2], 0xffff_ffff)->0 as u32
            } else {
                tunables.drive_duty
            };
            let ops = asked(line).ops(rig, tunables);
            &&& board.run(ops) == driven(rig, board, wheel, direction, pct)
            &&& board::holds(board, ops) == Seq::<Hold>::empty()
            &&& asked(line).tuned(tunables) == tunables
        }),
{
    drive_line_asks_to_drive(line, wheel, direction);
    let pct = match asked(line)->duty {
        Some(pct) => pct,
        None => tunables.drive_duty,
    };
    lemma_driven(rig, board, wheel, direction, pct);
}

/// `stop` puts the bot to rest at once.
pub proof fn stop_line_stops(line: Seq<char>, rig: Rig, board: Board, tunables: Tunables)
    requires
        rig.well_formed(),
        text::words(line).len() >= 1,
        text::words(line)[0] == "stop"@,
    ensures
        board.run(asked(line).ops(rig, tunables)) == rig.at_rest(board),
        board::holds(board, asked(line).ops(rig, tunables)) == Seq::<Hold>::empty(),
        asked(line).tuned(tunables) == tunables,
{
    lemma_words_differ();
    rig::stop_sets_every_line(rig, board);
}

/// `rect` drives the routine with the values as they are tuned: a rectangle to the right, a half turn
/// between two rests, and a rectangle to the left.
pub proof fn rect_line_drives_the_routine(
    line: Seq<char>,
    rig: Rig,
    board: Board,
    tunables: Tunables,
)
    requires
        rig.well_formed(),
        2 * tunables.turn_90_ms <= u32::MAX,
        text::words(line).len() >= 1,
        text::words(line)[0] == "rect"@,
    ensures
        ({
            let half_turn = rig.posed(
                board,
                Level::High,
                Level::Low,
                (rig.left.max_duty * tunables.turn_duty / 100) as u32,
                Level::Low,
                Level::High,
                (rig.right.max_duty * tunables.turn_duty / 100) as u32,
                Level::High,
            );
            let ops = asked(line).ops(rig, tunables);
            &&& board::holds(board, ops) == board::holds(
                board,
                rig.rectangle_ops(tunables, Turn::Right),
            ) + seq![
                Hold { board: rig.at_rest(board), ms: tunables.settle_ms as nat },
                Hold { board: half_turn, ms: 2 * tunables.turn_90_ms as nat },
                Hold { board: rig.at_rest(board), ms: tunables.settle_ms as nat },
            ] + board::holds(board, rig.rectangle_ops(tunables, Turn::Left))
            &&& board.run(ops) == rig.at_rest(board)
            &&& asked(line).tuned(tunables) == tunables
        }),
{
    lemma_words_differ();
    rig::routine_holds(rig, board, tunables);
}

/// The waits of one part of the alternating test.
proof fn lemma_alt_part_holds(
    rig: Rig,
    board: Board,
    wheel: Wheel,
    direction: Direction,
    duty_pct: u32,
    ms: u64,
)
    requires
        rig.well_formed(),
    ensures
        ({
            let ops = alt_part_ops(rig, wheel, direction.sign(), duty_pct, ms);
            &&& board::holds(board, ops) == seq![
                Hold { board: driven(rig, board, wheel, direction, duty_pct), ms: ms as nat },
                Hold { board: rig.at_rest(board), ms: 200 },
            ]
            &&& board.run(ops) == rig.at_rest(board)
        }),
{
    let a = wheel.drive_ops(rig, direction.sign(), duty_pct);
    let b = seq![Op::Wait { ms }];
    let c = rig.stop_ops();
    let d = seq![Op::Wait { ms: ALT_PAUSE_MS }];
    let turning = driven(rig, board, wheel, direction, duty_pct);
    let rest = rig.at_rest(board);
    lemma_driven(rig, board, wheel, direction, duty_pct);
    board::one_wait_one_hold(turning, ms);
    rig::stop_sets_every_line(rig, turning);
    assert(rig.at_rest(turning).level == rest.level);
    assert(rig.at_rest(turning).duty == rest.duty);
    board::one_wait_one_hold(rest, ALT_PAUSE_MS);
    board::run_in_parts(board, a, b);
    board::run_in_parts(board, a + b, c);
    board::run_in_parts(board, a + b + c, d);
    board::holds_in_parts(board, a, b);
    board::holds_in_parts(board, a + b, c);
    board::holds_in_parts(board, a + b + c, d);
}

/// `alt`, wait for wait: each wheel forward and then back, the left one first, at driving speed and
/// for the time that the line asks for, with a rest of 200 ms behind each. Only the wheel whose turn
/// it is turns. Behind it the bot is at rest.
pub proof fn alt_line_turns_each_wheel(
    line: Seq<char>,
    rig: Rig,
    board: Board,
    tunables: Tunables,
)
    requires
        rig.well_formed(),
        text::words(line).len() >= 1,
        text::words(line)[0] == "alt"@,
    ensures
        ({
            let w = text::words(line);
            let given = w.len() >= 2 && text::number(w[1], 0xffff_ffff_ffff_ffff) is Some;
            let ms = if given {
                text::number(w[1], 0xffff_ffff_ffff_ffff)->0
            } else {
                1000
            };
            let pct = tunables.drive_duty;
            let rest = rig.at_rest(board);
            let ops = asked(line).ops(rig, tunables);
            &&& board::holds(board, ops) == seq![
                Hold { board: driven(rig, board, Wheel::Left, Direction::Forward, pct), ms },
                Hold { board: rest, ms: 200 },
                Hold { board: driven(rig, rest, Wheel::Left, Direction::Reverse, pct), ms },
                Hold { board: rest, ms: 200 },
                Hold { board: driven(rig, rest, Wheel::Right, Direction::Forward, pct), ms },
                Hold { board: rest, ms: 200 },
                Hold { board: driven(rig, rest, Wheel::Right, Direction::Reverse, pct), ms },
                Hold { board: rest, ms: 200 },
            ]
            &&& board.run(ops) == rest
            &&& asked(line).tuned(tunables) == tunables
        }),
{
    alt_line_asks_for_its_time(line);
    let pct = tunables.drive_duty;
    let ms = asked(line)->ms;
    let rest = rig.at_rest(board);
    let a = alt_part_ops(rig, Wheel::Left, 1, pct, ms);
    let b = alt_part_ops(rig, Wheel::Left, -1, pct, ms);
    let c = alt_part_ops(rig, Wheel::Right, 1, pct, ms);
    let d = alt_part_ops(rig, Wheel::Right, -1, pct, ms);
    assert(rig.at_rest(rest).level == rest.level);
    assert(rig.at_rest(rest).duty == rest.duty);
    assert(rig.at_rest(rest) == rest);
    lemma_alt_part_holds(rig, board, Wheel::Left, Direction::Forward, pct, ms);
    lemma_alt_part_holds(rig, rest, Wheel::Left, Direction::Reverse, pct, ms);
    lemma_alt_part_holds(rig, rest, Wheel::Right, Direction::Forward, pct, ms);
    lemma_alt_part_holds(rig, rest, Wheel::Right, Direction::Reverse, pct, ms);
    board::run_in_parts(board, a, b);
    board::run_in_parts(board, a + b, c);
    board::run_in_parts(board, a + b + c, d);
    board::holds_in_parts(board, a, b);
    board::holds_in_parts(board, a + b, c);
    board::holds_in_parts(board, a + b + c, d);
}

/// A line that does not start with a wheel, `stop`, `alt` or `rect` does not touch the board, nor
/// does a wheel without a direction.
pub proof fn other_lines_do_not_move(line: Seq<char>, rig: Rig, tunables: Tunables)
    requires
        ({
            let w = text::words(line);
            ||| w.len() == 0
            ||| w[0] != "left"@ && w[0] != "right"@ && w[0] != "stop"@ && w[0] != "alt"@ && w[0]
                != "rect"@
            ||| (w[0] == "left"@ || w[0] == "right"@) && (w.len() < 2 || w[1] != "fwd"@ && w[1]
                != "rev"@ && w[1] != "stop"@)
        }),
    ensures
        asked(line).ops(rig, tunables) == Seq::<Op>::empty(),
{
    lemma_words_differ();
}

/// A line that does not start with `set` changes no value, and neither does a `set` without a
/// number or without the name of a key.
pub proof fn other_lines_do_not_tune(line: Seq<char>, tunables: Tunables)
    requires
        ({
            let w = text::words(line);
            ||| w.len() < 3
            ||| w[0] != "set"@
            ||| text::number(w[2], 0xffff_ffff_ffff_ffff) is None
            ||| forall|key: Key| w[1] != #[trigger] key.name()
        }),
    ensures
        asked(line).tuned(tunables) == tunables,
{
    lemma_words_differ();
    if text::words(line).len() >= 1 && text::words(line)[0] == "set"@ {
        set_line_sets_or_is_refused(line, tunables);
    }
}

/// What keeps a line from being carried out is a speed whose product with a full duty does not fit
/// 32 bits, of a wheel that is to turn at it, or a half turn whose time does not, and nothing else.
pub proof fn lines_that_fit(line: Seq<char>, rig: Rig, tunables: Tunables)
    ensures
        ({
            let w = text::words(line);
            let given = w.len() >= 3 && text::number(w[2], 0xffff_ffff) is Some;
            let pct = if given {
                text::number(w[2], 0xffff_ffff)->0 as u32
            } else {
                tunables.drive_duty
            };
            let turns = w.len() >= 2 && (w[1] == "fwd"@ || w[1] == "rev"@);
            let fits = asked(line).fits(rig, tunables);
            &&& w.len() == 0 ==> fits
            &&& w.len() > 0 && w[0] == "left"@ ==> (fits <==> (turns ==> rig.left.max_duty * pct
                <= 0xffff_ffff))
            &&& w.len() > 0 && w[0] == "right"@ ==> (fits <==> (turns ==> rig.right.max_duty * pct
                <= 0xffff_ffff))
            &&& w.len() > 0 && w[0] == "alt"@ ==> (fits <==> rig.left.max_duty
                * tunables.drive_duty <= 0xffff_ffff && rig.right.max_duty * tunables.drive_duty
                <= 0xffff_ffff)
            &&& w.len() > 0 && w[0] == "rect"@ ==> (fits <==> rig.left.max_duty
                * tunables.drive_duty <= 0xffff_ffff && rig.right.max_duty * tunables.drive_duty
                <= 0xffff_ffff && rig.left.max_duty * tunables.turn_duty <= 0xffff_ffff
                && rig.right.max_duty * tunables.turn_duty <= 0xffff_ffff && tunables.turn_90_ms
                <= 0x7fff_ffff)
            &&& w.len() > 0 && w[0] != "left"@ && w[0] != "right"@ && w[0] != "alt"@ && w[0]
                != "rect"@ ==> fits
        }),
{
    lemma_words_differ();
    rig::motors_take_what_fits(rig, tunables, tunables.drive_duty);
}

/// No step is taken that need not be: in each of its four parts the alternating test sets the lines
/// of one wheel, waits, sets all seven lines to rest, and waits.
pub proof fn alt_takes_no_step_too_many(line: Seq<char>, rig: Rig, tunables: Tunables)
    requires
        text::words(line).len() >= 1,
        text::words(line)[0] == "alt"@,
    ensures
        asked(line).ops(rig, tunables).len() == 2 * (3 + 1 + 7 + 1) + 2 * (4 + 1 + 7 + 1),
{
    alt_line_asks_for_its_time(line);
    rig::no_step_too_many(rig, tunables, Turn::Left, 1, tunables.drive_duty, 0);
    rig::no_step_too_many(rig, tunables, Turn::Left, -1, tunables.drive_duty, 0);
}

} // verus!
