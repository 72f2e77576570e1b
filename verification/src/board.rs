//! What the firmwares do to the board: single writes to its lines, and waits between them, in the
//! order in which they are to be carried out; and what the lines hold after them.
use vstd::prelude::*;

verus! {

/// The level of an output line.
#[derive(Clone, Copy, Debug, PartialEq, Eq, Structural)]
pub enum Level {
    Low,
    High,
}

/// How much of each PWM period a line is on: in counts of the timer, or in percent.
#[derive(Clone, Copy, Debug, PartialEq, Eq, Structural)]
pub enum Duty {
    Counts(u32),
    Percent(u8),
}

/// One step for the board to carry out. Lines are known by their GPIO number.
#[derive(Clone, Copy, Debug, PartialEq, Eq, Structural)]
pub enum Op {
    /// Puts an output line at a level.
    Write { pin: u8, level: Level },
    /// Loads the duty of the PWM channel on a line.
    Load { pin: u8, duty: Duty },
    /// Leaves everything as it is for a time.
    Wait { ms: u64 },
}

/// What the lines of a board were last told: the levels of its output lines and the duties of its
/// PWM lines.
pub struct Board {
    pub level: Map<u8, Level>,
    pub duty: Map<u8, Duty>,
}

impl Board {
    /// The board after one step.
    pub open spec fn apply(self, op: Op) -> Board {
        match op {
            Op::Write { pin, level } => Board { level: self.level.insert(pin, level), ..self },
            Op::Load { pin, duty } => Board { duty: self.duty.insert(pin, duty), ..self },
            Op::Wait { .. } => self,
        }
    }

    /// The board after `ops`, one after the other.
    pub open spec fn run(self, ops: Seq<Op>) -> Board
        decreases ops.len(),
    {
        if ops.len() == 0 {
            self
        } else {
            self.run(ops.drop_last()).apply(ops.last())
        }
    }
}

/// Steps taken one list after another leave the board as the two lists joined do.
pub proof fn run_in_parts(board: Board, first: Seq<Op>, second: Seq<Op>)
    ensures
        board.run(first + second) == board.run(first).run(second),
    decreases second.len(),
{
    if second.len() == 0 {
        assert(first + second == first);
    } else {
        run_in_parts(board, first, second.drop_last());
        assert((first + second).drop_last() == first + second.drop_last());
    }
}

/// One step more than `ops`.
pub proof fn run_one_more(board: Board, ops: Seq<Op>, op: Op)
    ensures
        board.run(ops.push(op)) == board.run(ops).apply(op),
{
    assert(ops.push(op).drop_last() == ops);
}

/// The board after a single step.
pub proof fn run_one(board: Board, op: Op)
    ensures
        board.run(seq![op]) == board.apply(op),
{
    run_one_more(board, seq![], op);
    assert(Seq::<Op>::empty().push(op) == seq![op]);
}

/// The board after three steps.
pub proof fn run_three(board: Board, first: Op, second: Op, third: Op)
    ensures
        board.run(seq![first, second, third]) == board.apply(first).apply(second).apply(third),
{
    run_one(board, first);
    run_one_more(board, seq![first], second);
    run_one_more(board, seq![first].push(second), third);
    assert(seq![first].push(second).push(third) == seq![first, second, third]);
}

/// One wait: how the whole board stands while it lasts, and for how long.
pub struct Hold {
    pub board: Board,
    pub ms: nat,
}

/// The waits in `ops`, when they start on `board`.
pub open spec fn holds(board: Board, ops: Seq<Op>) -> Seq<Hold>
    decreases ops.len(),
{
    if ops.len() == 0 {
        seq![]
    } else {
        let before = holds(board, ops.drop_last());
        match ops.last() {
            Op::Wait { ms } => before.push(
                Hold { board: board.run(ops.drop_last()), ms: ms as nat },
            ),
            _ => before,
        }
    }
}

/// The waits of two lists of steps, one after the other.
pub proof fn holds_in_parts(board: Board, first: Seq<Op>, second: Seq<Op>)
    ensures
        holds(board, first + second) == holds(board, first) + holds(board.run(first), second),
    decreases second.len(),
{
    if second.len() == 0 {
        assert(first + second == first);
    } else {
        holds_in_parts(board, first, second.drop_last());
        assert((first + second).drop_last() == first + second.drop_last());
        run_in_parts(board, first, second.drop_last());
    }
}

/// Steps without a wait take no time.
pub proof fn no_wait_no_hold(board: Board, ops: Seq<Op>)
    requires
        forall|i: int| 0 <= i < ops.len() ==> !(#[trigger] ops[i] is Wait),
    ensures
        holds(board, ops) == Seq::<Hold>::empty(),
    decreases ops.len(),
{
    if ops.len() > 0 {
        no_wait_no_hold(board, ops.drop_last());
    }
}

/// A wait finds the board as it is, and leaves it so.
pub proof fn one_wait_one_hold(board: Board, ms: u64)
    ensures
        holds(board, seq![Op::Wait { ms }]) == seq![Hold { board, ms: ms as nat }],
        board.run(seq![Op::Wait { ms }]) == board,
{
    let ops = seq![Op::Wait { ms }];
    run_one(board, Op::Wait { ms });
    assert(ops.drop_last() == Seq::<Op>::empty());
    assert(holds(board, ops.drop_last()) == Seq::<Hold>::empty());
}

/// A step sets the one line that it names, to what it says, and a wait none.
pub proof fn step_sets_one_line(board: Board, op: Op, pin: u8)
    ensures
        ({
            let after = board.apply(op);
            match op {
                Op::Write { pin: written, level } => {
                    &&& after.level[written] == level
                    &&& pin != written ==> after.level[pin] == board.level[pin]
                    &&& after.duty == board.duty
                },
                Op::Load { pin: loaded, duty } => {
                    &&& after.duty[loaded] == duty
                    &&& pin != loaded ==> after.duty[pin] == board.duty[pin]
                    &&& after.level == board.level
                },
                Op::Wait { .. } => after == board,
            }
        }),
{
}

} // verus!
