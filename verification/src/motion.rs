//! How the bot moves: which way each wheel turns while the board waits, and where that takes it by
//! dead reckoning.
use crate::board;
use crate::board::{Board, Duty, Level, Op};
use vstd::prelude::*;

verus! {

/// Which way the bot turns on the spot.
#[derive(Clone, Copy, Debug, PartialEq, Eq, Structural)]
pub enum Turn {
    Left,
    Right,
}

/// The lines of one L298N channel: the PWM enable line and the two direction lines.
#[derive(Clone, Copy, Debug, PartialEq, Eq, Structural)]
pub struct Wires {
    pub pwm: u8,
    pub in1: u8,
    pub in2: u8,
}

/// What the direction lines of a motor tell it to do.
pub enum Motion {
    /// First line high, second line low.
    Forward,
    /// First line low, second line high.
    Reverse,
    /// Both lines low.
    Brake,
    /// Both lines high.
    Clash,
}

/// What a motor is told by the levels of its two direction lines.
pub open spec fn told(in1: Level, in2: Level) -> Motion {
    match (in1, in2) {
        (Level::High, Level::Low) => Motion::Forward,
        (Level::Low, Level::High) => Motion::Reverse,
        (Level::Low, Level::Low) => Motion::Brake,
        (Level::High, Level::High) => Motion::Clash,
    }
}

/// What the direction lines of one motor say.
pub open spec fn motion(board: Board, wires: Wires) -> Motion {
    told(board.level[wires.in1], board.level[wires.in2])
}

/// The board once a motor's lines have been set, the direction lines first.
pub open spec fn wheel_set(board: Board, wires: Wires, in1: Level, in2: Level, duty: Duty) -> Board {
    Board {
        level: board.level.insert(wires.in1, in1).insert(wires.in2, in2),
        duty: board.duty.insert(wires.pwm, duty),
    }
}

/// The steps that set a motor's lines.
pub open spec fn wheel_ops(wires: Wires, in1: Level, in2: Level, duty: Duty) -> Seq<Op> {
    seq![
        Op::Write { pin: wires.in1, level: in1 },
        Op::Write { pin: wires.in2, level: in2 },
        Op::Load { pin: wires.pwm, duty },
    ]
}

/// Setting a motor's lines leaves them set, and every other line as it was.
pub proof fn wheel_ops_set_the_wheel(
    board: Board,
    wires: Wires,
    in1: Level,
    in2: Level,
    duty: Duty,
)
    ensures
        board.run(wheel_ops(wires, in1, in2, duty)) == wheel_set(board, wires, in1, in2, duty),
{
    let ops = wheel_ops(wires, in1, in2, duty);
    board::run_three(board, ops[0], ops[1], ops[2]);
}

/// One wait of the board: what the wheels are told while it lasts, and for how long.
pub struct Phase {
    pub left: Motion,
    pub right: Motion,
    pub ms: nat,
}

/// The waits in `ops`, when they start on `board`.
pub open spec fn phases(board: Board, left: Wires, right: Wires, ops: Seq<Op>) -> Seq<Phase>
    decreases ops.len(),
{
    if ops.len() == 0 {
        seq![]
    } else {
        let before = phases(board, left, right, ops.drop_last());
        let then = board.run(ops.drop_last());
        match ops.last() {
            Op::Wait { ms } => before.push(
                Phase { left: motion(then, left), right: motion(then, right), ms: ms as nat },
            ),
            _ => before,
        }
    }
}

/// The waits of two lists of steps, one after the other.
pub proof fn phases_in_parts(
    board: Board,
    left: Wires,
    right: Wires,
    first: Seq<Op>,
    second: Seq<Op>,
)
    ensures
        phases(board, left, right, first + second) == phases(board, left, right, first) + phases(
            board.run(first),
            left,
            right,
            second,
        ),
    decreases second.len(),
{
    if second.len() == 0 {
        assert(first + second == first);
    } else {
        phases_in_parts(board, left, right, first, second.drop_last());
        assert((first + second).drop_last() == first + second.drop_last());
        board::run_in_parts(board, first, second.drop_last());
    }
}

/// Steps without a wait have no phases.
pub proof fn no_wait_no_phase(board: Board, left: Wires, right: Wires, ops: Seq<Op>)
    requires
        forall|i: int| 0 <= i < ops.len() ==> !(#[trigger] ops[i] is Wait),
    ensures
        phases(board, left, right, ops) == Seq::<Phase>::empty(),
    decreases ops.len(),
{
    if ops.len() > 0 {
        no_wait_no_phase(board, left, right, ops.drop_last());
    }
}

/// A wait is one phase.
pub proof fn one_wait_one_phase(board: Board, left: Wires, right: Wires, ms: u64)
    ensures
        phases(board, left, right, seq![Op::Wait { ms }]) == seq![
            Phase { left: motion(board, left), right: motion(board, right), ms: ms as nat },
        ],
{
    let ops = seq![Op::Wait { ms }];
    assert(ops.drop_last() == Seq::<Op>::empty());
    assert(phases(board, left, right, ops.drop_last()) == Seq::<Phase>::empty());
}

/// Both wheels forward.
pub open spec fn straight_phase(ms: nat) -> Phase {
    Phase { left: Motion::Forward, right: Motion::Forward, ms }
}

/// One wheel forward and the other in reverse: a turn to the right has the left wheel forward.
pub open spec fn spin_phase(turn: Turn, ms: nat) -> Phase {
    match turn {
        Turn::Right => Phase { left: Motion::Forward, right: Motion::Reverse, ms },
        Turn::Left => Phase { left: Motion::Reverse, right: Motion::Forward, ms },
    }
}

/// Both wheels braked.
pub open spec fn rest_phase(ms: nat) -> Phase {
    Phase { left: Motion::Brake, right: Motion::Brake, ms }
}

/// A leg of the rectangle and the corner behind it, with a rest after each.
pub open spec fn leg_phases(turn: Turn, leg_ms: nat, quarter_ms: nat, rest_ms: nat) -> Seq<Phase> {
    seq![
        straight_phase(leg_ms),
        rest_phase(rest_ms),
        spin_phase(turn, quarter_ms),
        rest_phase(rest_ms),
    ]
}

/// One rectangle: long leg, corner, short leg, corner, long leg, corner, short leg, and the corner
/// that brings the bot back to the heading it started with.
pub open spec fn rectangle_phases(
    turn: Turn,
    long_ms: nat,
    short_ms: nat,
    quarter_ms: nat,
    rest_ms: nat,
) -> Seq<Phase> {
    leg_phases(turn, long_ms, quarter_ms, rest_ms) + leg_phases(turn, short_ms, quarter_ms, rest_ms)
        + leg_phases(turn, long_ms, quarter_ms, rest_ms) + leg_phases(
        turn,
        short_ms,
        quarter_ms,
        rest_ms,
    )
}

/// The phases of the whole routine: a rectangle to the right, a half turn, and the mirror-image
/// rectangle to the left.
pub open spec fn routine_phases(
    long_ms: nat,
    short_ms: nat,
    quarter_ms: nat,
    rest_ms: nat,
) -> Seq<Phase> {
    rectangle_phases(Turn::Right, long_ms, short_ms, quarter_ms, rest_ms) + seq![
        rest_phase(rest_ms),
        spin_phase(Turn::Right, 2 * quarter_ms),
        rest_phase(rest_ms),
    ] + rectangle_phases(Turn::Left, long_ms, short_ms, quarter_ms, rest_ms)
}

/// The other way to turn.
pub open spec fn opposite(turn: Turn) -> Turn {
    match turn {
        Turn::Left => Turn::Right,
        Turn::Right => Turn::Left,
    }
}

/// The same movement with left and right exchanged.
pub open spec fn mirrored(list: Seq<Phase>) -> Seq<Phase> {
    list.map_values(|p: Phase| Phase { left: p.right, right: p.left, ms: p.ms })
}

/// The rectangle one way is the mirror image of the rectangle the other way.
pub proof fn rectangles_are_mirror_images(
    turn: Turn,
    long_ms: nat,
    short_ms: nat,
    quarter_ms: nat,
    rest_ms: nat,
)
    ensures
        rectangle_phases(opposite(turn), long_ms, short_ms, quarter_ms, rest_ms) == mirrored(
            rectangle_phases(turn, long_ms, short_ms, quarter_ms, rest_ms),
        ),
{
}

/// Where the bot is by dead reckoning: how many milliseconds of straight driving it is away from a
/// fixed point, along and across a fixed heading, and how many quarter turns to the right of that
/// heading it faces.
pub struct Pose {
    pub along: int,
    pub across: int,
    pub quarters: int,
}

/// The pose after one phase, when a quarter turn takes `quarter_ms`.
pub open spec fn reckon(pose: Pose, phase: Phase, quarter_ms: nat) -> Pose {
    match (phase.left, phase.right) {
        (Motion::Forward, Motion::Forward) => {
            let heading = pose.quarters % 4;
            if heading == 0 {
                Pose { along: pose.along + phase.ms, ..pose }
            } else if heading == 1 {
                Pose { across: pose.across + phase.ms, ..pose }
            } else if heading == 2 {
                Pose { along: pose.along - phase.ms, ..pose }
            } else {
                Pose { across: pose.across - phase.ms, ..pose }
            }
        },
        (Motion::Forward, Motion::Reverse) => Pose {
            quarters: pose.quarters + (phase.ms / quarter_ms),
            ..pose
        },
        (Motion::Reverse, Motion::Forward) => Pose {
            quarters: pose.quarters - (phase.ms / quarter_ms),
            ..pose
        },
        _ => pose,
    }
}

/// The pose after `list`, one phase after the other.
pub open spec fn travel(pose: Pose, list: Seq<Phase>, quarter_ms: nat) -> Pose
    decreases list.len(),
{
    if list.len() == 0 {
        pose
    } else {
        reckon(travel(pose, list.drop_last(), quarter_ms), list.last(), quarter_ms)
    }
}

/// Two lists of phases, one after the other.
proof fn lemma_travel_in_parts(pose: Pose, first: Seq<Phase>, second: Seq<Phase>, quarter_ms: nat)
    ensures
        travel(pose, first + second, quarter_ms) == travel(
            travel(pose, first, quarter_ms),
            second,
            quarter_ms,
        ),
    decreases second.len(),
{
    if second.len() == 0 {
        assert(first + second == first);
    } else {
        lemma_travel_in_parts(pose, first, second.drop_last(), quarter_ms);
        assert((first + second).drop_last() == first + second.drop_last());
    }
}

/// One phase more.
proof fn lemma_travel_one_more(pose: Pose, list: Seq<Phase>, phase: Phase, quarter_ms: nat)
    ensures
        travel(pose, list.push(phase), quarter_ms) == reckon(
            travel(pose, list, quarter_ms),
            phase,
            quarter_ms,
        ),
{
    assert(list.push(phase).drop_last() == list);
}

/// A leg moves the bot along its heading, and the corner behind it turns it by a quarter.
proof fn lemma_travel_leg(pose: Pose, turn: Turn, leg_ms: nat, quarter_ms: nat, rest_ms: nat)
    requires
        quarter_ms > 0,
    ensures
        ({
            let ahead = reckon(pose, straight_phase(leg_ms), quarter_ms);
            travel(pose, leg_phases(turn, leg_ms, quarter_ms, rest_ms), quarter_ms) == (Pose {
                quarters: match turn {
                    Turn::Right => pose.quarters + 1,
                    Turn::Left => pose.quarters - 1,
                },
                ..ahead
            })
        }),
{
    let a = straight_phase(leg_ms);
    let b = rest_phase(rest_ms);
    let c = spin_phase(turn, quarter_ms);
    let none = Seq::<Phase>::empty();
    lemma_travel_one_more(pose, none, a, quarter_ms);
    lemma_travel_one_more(pose, none.push(a), b, quarter_ms);
    lemma_travel_one_more(pose, none.push(a).push(b), c, quarter_ms);
    lemma_travel_one_more(pose, none.push(a).push(b).push(c), b, quarter_ms);
    assert(none.push(a).push(b).push(c).push(b) == leg_phases(turn, leg_ms, quarter_ms, rest_ms));
    assert(quarter_ms / quarter_ms == 1) by (nonlinear_arith)
        requires
            quarter_ms > 0,
    ;
}

/// By dead reckoning a rectangle ends where it started, after one full turn, so that the bot faces
/// the heading it started with.
pub proof fn rectangle_closes(
    pose: Pose,
    turn: Turn,
    long_ms: nat,
    short_ms: nat,
    quarter_ms: nat,
    rest_ms: nat,
)
    requires
        quarter_ms > 0,
    ensures
        travel(
            pose,
            rectangle_phases(turn, long_ms, short_ms, quarter_ms, rest_ms),
            quarter_ms,
        ) == (Pose {
            quarters: match turn {
                Turn::Right => pose.quarters + 4,
                Turn::Left => pose.quarters - 4,
            },
            ..pose
        }),
{
    let long = leg_phases(turn, long_ms, quarter_ms, rest_ms);
    let short = leg_phases(turn, short_ms, quarter_ms, rest_ms);
    let p1 = travel(pose, long, quarter_ms);
    let p2 = travel(p1, short, quarter_ms);
    let p3 = travel(p2, long, quarter_ms);
    lemma_travel_leg(pose, turn, long_ms, quarter_ms, rest_ms);
    lemma_travel_leg(p1, turn, short_ms, quarter_ms, rest_ms);
    lemma_travel_leg(p2, turn, long_ms, quarter_ms, rest_ms);
    lemma_travel_leg(p3, turn, short_ms, quarter_ms, rest_ms);
    lemma_travel_in_parts(pose, long, short, quarter_ms);
    lemma_travel_in_parts(pose, long + short, long, quarter_ms);
    lemma_travel_in_parts(pose, long + short + long, short, quarter_ms);
}

/// By dead reckoning the whole routine leaves the bot where it started, facing the other way.
pub proof fn routine_ends_about_face(
    pose: Pose,
    long_ms: nat,
    short_ms: nat,
    quarter_ms: nat,
    rest_ms: nat,
)
    requires
        quarter_ms > 0,
    ensures
        travel(pose, routine_phases(long_ms, short_ms, quarter_ms, rest_ms), quarter_ms) == (Pose {
            quarters: pose.quarters + 2,
            ..pose
        }),
{
    let right = rectangle_phases(Turn::Right, long_ms, short_ms, quarter_ms, rest_ms);
    let left = rectangle_phases(Turn::Left, long_ms, short_ms, quarter_ms, rest_ms);
    let a = rest_phase(rest_ms);
    let b = spin_phase(Turn::Right, 2 * quarter_ms);
    let none = Seq::<Phase>::empty();
    let between = seq![a, b, a];
    rectangle_closes(pose, Turn::Right, long_ms, short_ms, quarter_ms, rest_ms);
    let p1 = travel(pose, right, quarter_ms);
    lemma_travel_one_more(p1, none, a, quarter_ms);
    lemma_travel_one_more(p1, none.push(a), b, quarter_ms);
    lemma_travel_one_more(p1, none.push(a).push(b), a, quarter_ms);
    assert(none.push(a).push(b).push(a) == between);
    assert((2 * quarter_ms) / quarter_ms == 2) by (nonlinear_arith)
        requires
            quarter_ms > 0,
    ;
    let p2 = travel(p1, between, quarter_ms);
    rectangle_closes(p2, Turn::Left, long_ms, short_ms, quarter_ms, rest_ms);
    lemma_travel_in_parts(pose, right, between, quarter_ms);
    lemma_travel_in_parts(pose, right + between, left, quarter_ms);
}

} // verus!
