//! The execution engine: pending-work queue, visited set, interpreter mode,
//! value stack, literal buffer, output buffer, and the dispatch step.
//!
//! The engine is driven one dispatch iteration at a time through [`Engine::step`].
//! Each step increments the step counter, then either times out, runs dry, or
//! dequeues the front operation, skips it when already visited, and otherwise
//! dispatches on the pair (current mode, operation character). The whole
//! transition is captured by the specification function [`step_tr`], which the
//! step contract ties to the executable state exactly.

use vstd::prelude::*;
use std::collections::VecDeque;
use crate::grid::{Operation, unit_ops, cardinal_ops, horizontal_ops, vertical_ops, grid_view};
use crate::numeric::{is_digit, all_digits, digits_value, dec_repr, parse_u32_digits, format_u32};

verus! {

/// Which opcode table is active. Global to the engine; queue entries do not
/// carry a mode of their own.
#[derive(Clone, Copy, PartialEq, Eq, Structural, Debug)]
pub enum Mode {
    Normal,
    Number,
    Arithmetic,
}

/// Where the engine stands between calls: ready for the next dispatch,
/// suspended awaiting one line of operator input, or stopped for good.
#[derive(Clone, Copy, PartialEq, Eq, Structural, Debug)]
pub enum Phase {
    Ready,
    Awaiting,
    Stopped,
}

/// How a run ends when no invariant was violated.
#[derive(Clone, Copy, PartialEq, Eq, Structural, Debug)]
pub enum Status {
    /// The queue ran dry: natural completion.
    Idle,
    /// A `T` opcode was reached.
    Success,
    /// The step ceiling was reached.
    Timeout,
}

/// A fatal invariant violation; the run aborts immediately.
#[derive(Clone, Copy, PartialEq, Eq, Structural, Debug)]
pub enum FaultKind {
    /// A value was popped from an empty value stack.
    StackUnderflow,
    /// The literal buffer did not parse as an unsigned 32-bit decimal.
    MalformedLiteral,
    /// Division by zero, or the result of a binary op fell outside 32 bits.
    ArithmeticFault,
}

/// What one call of [`Engine::step`] reports back to the driver.
#[derive(Clone, Copy, PartialEq, Eq, Structural, Debug)]
pub enum StepEvent {
    /// The step completed and the engine is ready for the next one.
    Running,
    /// An `i` opcode ran: the engine blocks until [`Engine::provide_input`].
    Input,
    /// The run ended with the given status.
    Halted(Status),
    /// The run aborted; the second field names the offending opcode.
    Fault(FaultKind, char),
}

/// Mathematical state of the engine: every component the dispatch loop owns.
#[verifier::ext_equal]
pub ghost struct EngineView {
    pub grid: Seq<Seq<char>>,
    pub mode: Mode,
    pub phase: Phase,
    pub queue: Seq<Operation>,
    pub visited: Set<Operation>,
    pub values: Seq<u32>,
    pub literal: Seq<char>,
    pub output: Seq<char>,
    pub steps: int,
    pub ceiling: int,
}

/// The state with operations appended at the back of the queue.
pub open spec fn with_queue_back(s: EngineView, ops: Seq<Operation>) -> EngineView {
    EngineView { queue: s.queue + ops, ..s }
}

/// The state stopped for good.
pub open spec fn stopped_view(s: EngineView) -> EngineView {
    EngineView { phase: Phase::Stopped, ..s }
}

/// The character whose code point is the low byte of `v`; what the `P`
/// opcode appends.
pub open spec fn low_byte_char(v: u32) -> char {
    (v as u8) as char
}

/// Normal-mode dispatch of `op`, from a state where `op` was already dequeued
/// and marked visited.
pub open spec fn dispatch_normal_spec(s: EngineView, op: Operation) -> (EngineView, StepEvent) {
    let g = s.grid;
    let r = op.row as int;
    let c = op.col as int;
    let ch = op.op;
    if ch == 'S' || ch == '+' {
        (with_queue_back(s, cardinal_ops(g, r, c)), StepEvent::Running)
    } else if ch == 'Y' {
        let popped = EngineView {
            values: if s.values.len() > 0 { s.values.drop_last() } else { s.values },
            ..s
        };
        let after = with_queue_back(popped, horizontal_ops(g, r, c));
        if s.values.len() == 0 || s.values.last() == 0u32 {
            (with_queue_back(after, unit_ops(g, r + 1, c)), StepEvent::Running)
        } else {
            (after, StepEvent::Running)
        }
    } else if ch == '#' {
        (EngineView { mode: Mode::Number, ..with_queue_back(s, cardinal_ops(g, r, c)) },
            StepEvent::Running)
    } else if ch == 'i' {
        (EngineView { phase: Phase::Awaiting, ..with_queue_back(s, cardinal_ops(g, r, c)) },
            StepEvent::Input)
    } else if ch == 'P' {
        if s.values.len() == 0 {
            (stopped_view(s), StepEvent::Fault(FaultKind::StackUnderflow, 'P'))
        } else {
            (EngineView {
                values: s.values.drop_last(),
                output: s.output.push(low_byte_char(s.values.last())),
                ..with_queue_back(s, cardinal_ops(g, r, c))
            }, StepEvent::Running)
        }
    } else if ch == 'p' {
        if s.values.len() == 0 {
            (stopped_view(s), StepEvent::Fault(FaultKind::StackUnderflow, 'p'))
        } else {
            (EngineView {
                values: s.values.drop_last(),
                output: s.output + dec_repr(s.values.last() as int),
                ..with_queue_back(s, cardinal_ops(g, r, c))
            }, StepEvent::Running)
        }
    } else if ch == '|' {
        (with_queue_back(s, vertical_ops(g, r, c)), StepEvent::Running)
    } else if ch == '-' {
        (with_queue_back(s, horizontal_ops(g, r, c)), StepEvent::Running)
    } else if ch == 'T' {
        (stopped_view(s), StepEvent::Halted(Status::Success))
    } else if ch == '&' {
        if s.values.len() < 2 {
            (stopped_view(s), StepEvent::Fault(FaultKind::StackUnderflow, '&'))
        } else {
            let n1 = s.values.last();
            let n2 = s.values[s.values.len() - 2];
            let popped = EngineView { values: s.values.take(s.values.len() - 2), ..s };
            let called = EngineView {
                queue: unit_ops(g, n1 as int, n2 as int) + popped.queue,
                ..popped
            };
            (with_queue_back(called, cardinal_ops(g, r, c)), StepEvent::Running)
        }
    } else if ch == 'R' {
        (EngineView { visited: Set::empty(), ..with_queue_back(s, cardinal_ops(g, r, c)) },
            StepEvent::Running)
    } else if ch == '>' {
        (with_queue_back(s, unit_ops(g, r, c + 1)), StepEvent::Running)
    } else if ch == '<' {
        (with_queue_back(s, unit_ops(g, r, c - 1)), StepEvent::Running)
    } else if ch == '^' {
        (with_queue_back(s, unit_ops(g, r - 1, c)), StepEvent::Running)
    } else if ch == 'v' {
        (with_queue_back(s, unit_ops(g, r + 1, c)), StepEvent::Running)
    } else if ch == 'M' {
        (EngineView { mode: Mode::Arithmetic, ..with_queue_back(s, cardinal_ops(g, r, c)) },
            StepEvent::Running)
    } else {
        (s, StepEvent::Running)
    }
}

/// Number-mode dispatch of `op`, from a state where `op` was already dequeued
/// and marked visited.
pub open spec fn dispatch_number_spec(s: EngineView, op: Operation) -> (EngineView, StepEvent) {
    let g = s.grid;
    let r = op.row as int;
    let c = op.col as int;
    let ch = op.op;
    if ch == 'D' {
        if s.values.len() == 0 {
            (stopped_view(s), StepEvent::Fault(FaultKind::StackUnderflow, 'D'))
        } else {
            (EngineView {
                values: s.values.push(s.values.last()),
                ..with_queue_back(s, cardinal_ops(g, r, c))
            }, StepEvent::Running)
        }
    } else if ch == '-' {
        (with_queue_back(s, horizontal_ops(g, r, c)), StepEvent::Running)
    } else if ch == '|' {
        (with_queue_back(s, vertical_ops(g, r, c)), StepEvent::Running)
    } else if ch == '+' {
        (with_queue_back(s, cardinal_ops(g, r, c)), StepEvent::Running)
    } else if is_digit(ch) {
        (EngineView { literal: s.literal.push(ch), ..with_queue_back(s, cardinal_ops(g, r, c)) },
            StepEvent::Running)
    } else if ch == '&' {
        if s.literal.len() > 0 && digits_value(s.literal) <= u32::MAX {
            (EngineView {
                literal: Seq::empty(),
                values: s.values.push(digits_value(s.literal) as u32),
                ..with_queue_back(s, cardinal_ops(g, r, c))
            }, StepEvent::Running)
        } else {
            (stopped_view(s), StepEvent::Fault(FaultKind::MalformedLiteral, '&'))
        }
    } else if ch == '#' {
        (EngineView { mode: Mode::Normal, ..with_queue_back(s, cardinal_ops(g, r, c)) },
            StepEvent::Running)
    } else if ch == 'C' {
        (EngineView {
            literal: Seq::empty(),
            values: Seq::empty(),
            mode: Mode::Normal,
            ..with_queue_back(s, cardinal_ops(g, r, c))
        }, StepEvent::Running)
    } else {
        (s, StepEvent::Running)
    }
}

/// The mathematical result a binary arithmetic opcode asks for; outside
/// 0..=u32::MAX the op faults. Operands: `n1` was popped first (the former
/// top), `n2` second (beneath it); `-` and `/` are deliberately asymmetric.
pub open spec fn arith_result(ch: char, n1: int, n2: int) -> int {
    if ch == '*' {
        n1 * n2
    } else if ch == '+' {
        n1 + n2
    } else if ch == '-' {
        n2 - n1
    } else {
        if n2 == 0 { -1 } else { n1 / n2 }
    }
}

/// Arithmetic-mode dispatch of `op`, from a state where `op` was already
/// dequeued and marked visited.
pub open spec fn dispatch_arith_spec(s: EngineView, op: Operation) -> (EngineView, StepEvent) {
    let g = s.grid;
    let r = op.row as int;
    let c = op.col as int;
    let ch = op.op;
    if ch == '*' || ch == '+' || ch == '-' || ch == '/' {
        if s.values.len() < 2 {
            (stopped_view(s), StepEvent::Fault(FaultKind::StackUnderflow, ch))
        } else {
            let n1 = s.values.last() as int;
            let n2 = s.values[s.values.len() - 2] as int;
            if ch == '/' && n2 == 0 {
                (stopped_view(s), StepEvent::Fault(FaultKind::ArithmeticFault, '/'))
            } else if arith_result(ch, n1, n2) < 0 || arith_result(ch, n1, n2) > u32::MAX {
                (stopped_view(s), StepEvent::Fault(FaultKind::ArithmeticFault, ch))
            } else {
                (EngineView {
                    values: s.values.take(s.values.len() - 2).push(
                        arith_result(ch, n1, n2) as u32),
                    ..with_queue_back(s, cardinal_ops(g, r, c))
                }, StepEvent::Running)
            }
        }
    } else if ch == 'M' {
        (EngineView { mode: Mode::Normal, ..with_queue_back(s, cardinal_ops(g, r, c)) },
            StepEvent::Running)
    } else {
        (s, StepEvent::Running)
    }
}

/// Dispatch of `op` by the pair (current mode, operation character).
pub open spec fn dispatch_spec(s: EngineView, op: Operation) -> (EngineView, StepEvent) {
    match s.mode {
        Mode::Normal => dispatch_normal_spec(s, op),
        Mode::Number => dispatch_number_spec(s, op),
        Mode::Arithmetic => dispatch_arith_spec(s, op),
    }
}

/// One full dispatch-loop iteration: bump the step counter (timing out when
/// it reaches a positive ceiling), then dequeue; an empty queue ends the run
/// Idle, an already-visited operation is discarded without further action,
/// and anything else is marked visited and dispatched.
pub open spec fn step_tr(s: EngineView) -> (EngineView, StepEvent) {
    if s.ceiling > 0 && s.steps + 1 == s.ceiling {
        (EngineView { steps: s.steps + 1, phase: Phase::Stopped, ..s },
            StepEvent::Halted(Status::Timeout))
    } else {
        let s1 = EngineView { steps: if s.ceiling > 0 { s.steps + 1 } else { s.steps }, ..s };
        if s1.queue.len() == 0 {
            (stopped_view(s1), StepEvent::Halted(Status::Idle))
        } else {
            let op = s1.queue[0];
            let s2 = EngineView { queue: s1.queue.drop_first(), ..s1 };
            if s2.visited.contains(op) {
                (s2, StepEvent::Running)
            } else {
                dispatch_spec(EngineView { visited: s2.visited.insert(op), ..s2 }, op)
            }
        }
    }
}

#[via_fn]
proof fn run_tr_dec(s: EngineView) {
    if step_tr(s).1 == StepEvent::Running && view_wf(s) && s.phase == Phase::Ready
        && s.ceiling > 0 {
        lemma_step_events(s);
    }
}

/// Iterated dispatch: from `s`, take steps until the first event that is not
/// Running — the suspension, halt, or fault that ends the stretch. The
/// positive ceiling bounds the iteration.
pub open spec fn run_tr(s: EngineView) -> (EngineView, StepEvent)
    decreases s.ceiling - s.steps via run_tr_dec
{
    let next = step_tr(s).0;
    let e = step_tr(s).1;
    if e == StepEvent::Running && view_wf(s) && s.phase == Phase::Ready && s.ceiling > 0 {
        run_tr(next)
    } else {
        (next, e)
    }
}

/// The state the engine starts from: the single operation at (0, 0) pending,
/// everything else empty, Normal mode, counter at zero.
pub open spec fn init_view(g: Seq<Seq<char>>, ceiling: int) -> EngineView {
    EngineView {
        grid: g,
        mode: Mode::Normal,
        phase: Phase::Ready,
        queue: seq![Operation { op: g[0][0], row: 0, col: 0 }],
        visited: Set::empty(),
        values: Seq::empty(),
        literal: Seq::empty(),
        output: Seq::empty(),
        steps: 0,
        ceiling: ceiling,
    }
}

/// Well-formedness of an engine state: the counter sits below a positive
/// ceiling while the engine can still step, stays frozen at zero under a
/// ceiling of zero (which disables the timeout), and the literal buffer holds
/// digits only.
pub open spec fn view_wf(s: EngineView) -> bool {
    &&& 0 <= s.steps
    &&& 0 <= s.ceiling <= u64::MAX
    &&& s.ceiling > 0 ==> s.steps <= s.ceiling
    &&& (s.ceiling > 0 && s.phase != Phase::Stopped) ==> s.steps < s.ceiling
    &&& s.ceiling == 0 ==> s.steps == 0
    &&& all_digits(s.literal)
}

/// The execution engine. All interpreter state is owned here; nothing is
/// shared and one operation is fully processed before the next is dequeued.
pub struct Engine {
    grid: Vec<Vec<char>>,
    mode: Mode,
    phase: Phase,
    queue: VecDeque<Operation>,
    visited: Vec<Operation>,
    values: Vec<u32>,
    literal: Vec<char>,
    output: Vec<char>,
    steps: u64,
    ceiling: u64,
}

impl View for Engine {
    type V = EngineView;

    closed spec fn view(&self) -> EngineView {
        EngineView {
            grid: grid_view(self.grid@),
            mode: self.mode,
            phase: self.phase,
            queue: self.queue@,
            visited: self.visited@.to_set(),
            values: self.values@,
            literal: self.literal@,
            output: self.output@,
            steps: self.steps as int,
            ceiling: self.ceiling as int,
        }
    }
}


/// Pushing the operation of a present cell appends exactly that cell's unit
/// of work to the queue.
proof fn lemma_queue_after_push(q: Seq<Operation>, g: Seq<Seq<char>>, r: int, c: int, o: Operation)
    requires
        0 <= r <= usize::MAX,
        0 <= c <= usize::MAX,
        r < g.len(),
        c < g[r].len(),
        o.op == g[r][c],
        o.row == r as usize,
        o.col == c as usize,
    ensures
        q.push(o) == q + unit_ops(g, r, c),
{
    assert(q.push(o) =~= q + unit_ops(g, r, c));
}

/// Appending the unit of work of an absent cell leaves the queue unchanged.
proof fn lemma_queue_after_skip(q: Seq<Operation>, g: Seq<Seq<char>>, r: int, c: int)
    requires
        !(0 <= r < g.len() && 0 <= c < g[r].len()),
    ensures
        q == q + unit_ops(g, r, c),
{
    assert(q =~= q + unit_ops(g, r, c));
}

/// Prepending the operation of a present cell at the front of the queue
/// prepends exactly that cell's unit of work.
proof fn lemma_queue_after_front(q: Seq<Operation>, g: Seq<Seq<char>>, r: int, c: int,
    o: Operation)
    requires
        0 <= r <= usize::MAX,
        0 <= c <= usize::MAX,
        r < g.len(),
        c < g[r].len(),
        o.op == g[r][c],
        o.row == r as usize,
        o.col == c as usize,
    ensures
        seq![o] + q == unit_ops(g, r, c) + q,
{
    assert(seq![o] + q =~= unit_ops(g, r, c) + q);
}

/// Prepending the unit of work of an absent cell leaves the queue unchanged.
proof fn lemma_queue_front_skip(q: Seq<Operation>, g: Seq<Seq<char>>, r: int, c: int)
    requires
        !(0 <= r < g.len() && 0 <= c < g[r].len()),
    ensures
        q == unit_ops(g, r, c) + q,
{
    assert(q =~= unit_ops(g, r, c) + q);
}

/// A successful binary arithmetic dispatch: both operands popped, the result
/// pushed, cardinal propagation appended.
proof fn lemma_arith_success(a: EngineView, b: EngineView, op: Operation, res: u32)
    requires
        a.values.len() >= 2,
        op.op == '*' || op.op == '+' || op.op == '-' || op.op == '/',
        res as int == arith_result(op.op, a.values.last() as int,
            a.values[a.values.len() - 2] as int),
        !(op.op == '/' && a.values[a.values.len() - 2] as int == 0),
        b.queue == a.queue + cardinal_ops(a.grid, op.row as int, op.col as int),
        b.values == a.values.take(a.values.len() - 2).push(res),
        b.grid == a.grid,
        b.mode == a.mode,
        b.phase == a.phase,
        b.visited == a.visited,
        b.literal == a.literal,
        b.output == a.output,
        b.steps == a.steps,
        b.ceiling == a.ceiling,
    ensures
        b == dispatch_arith_spec(a, op).0,
        dispatch_arith_spec(a, op).1 == StepEvent::Running,
{
    assert(b =~~= dispatch_arith_spec(a, op).0);
}

/// Two states that agree on every component, with the queue of the second
/// extending the queue of the first by `ops`, stand in the queue-append
/// relation.
proof fn lemma_is_queue_back(a: EngineView, b: EngineView, ops: Seq<Operation>)
    requires
        b.queue == a.queue + ops,
        b.grid == a.grid,
        b.mode == a.mode,
        b.phase == a.phase,
        b.visited == a.visited,
        b.values == a.values,
        b.literal == a.literal,
        b.output == a.output,
        b.steps == a.steps,
        b.ceiling == a.ceiling,
    ensures
        b == with_queue_back(a, ops),
{
    assert(b =~~= with_queue_back(a, ops));
}

/// Pushing an element onto the sequence backing the visited set inserts it
/// into the set it denotes.
proof fn lemma_visited_push(s: Seq<Operation>, x: Operation)
    ensures
        s.push(x).to_set() == s.to_set().insert(x),
{
    assert forall|a: Operation| s.push(x).to_set().contains(a)
        implies s.to_set().insert(x).contains(a) by {
        let i = choose|i: int| 0 <= i < s.push(x).len() && s.push(x)[i] == a;
        if i < s.len() {
            assert(s[i] == a);
        }
    }
    assert forall|a: Operation| s.to_set().insert(x).contains(a)
        implies s.push(x).to_set().contains(a) by {
        if s.contains(a) {
            let i = choose|i: int| 0 <= i < s.len() && s[i] == a;
            assert(s.push(x)[i] == a);
        } else {
            assert(s.push(x)[s.len() as int] == x);
        }
    }
    assert(s.push(x).to_set() =~= s.to_set().insert(x));
}

/// The empty sequence denotes the empty set.
proof fn lemma_visited_empty()
    ensures
        Seq::<Operation>::empty().to_set() == Set::<Operation>::empty(),
{
    assert(Seq::<Operation>::empty().to_set() =~= Set::<Operation>::empty());
}

/// Linear membership scan over the sequence backing the visited set.
fn visited_contains(v: &Vec<Operation>, x: Operation) -> (r: bool)
    ensures
        r == v@.to_set().contains(x),
{
    let mut i: usize = 0;
    while i < v.len()
        invariant
            0 <= i <= v@.len(),
            forall|j: int| 0 <= j < i ==> v@[j] != x,
        decreases v@.len() - i,
    {
        if v[i] == x {
            assert(v@.contains(x));
            return true;
        }
        i = i + 1;
    }
    assert(!v@.contains(x));
    false
}

impl Engine {
    /// Engine-state well-formedness; established by the constructor and
    /// preserved by every step.
    pub open spec fn wf(&self) -> bool {
        view_wf(self@)
    }

    /// Build an engine over `grid` with the given step ceiling (0 disables
    /// the timeout); the single pending operation is the top-left cell.
    pub fn new(grid: Vec<Vec<char>>, ceiling: u64) -> (e: Engine)
        requires
            grid@.len() > 0,
            grid@[0]@.len() > 0,
        ensures
            e.wf(),
            e@ == init_view(grid_view(grid@), ceiling as int),
    {
        let first = Operation { op: grid[0][0], row: 0, col: 0 };
        let mut queue: VecDeque<Operation> = VecDeque::new();
        queue.push_back(first);
        let e = Engine {
            grid,
            mode: Mode::Normal,
            phase: Phase::Ready,
            queue,
            visited: Vec::new(),
            values: Vec::new(),
            literal: Vec::new(),
            output: Vec::new(),
            steps: 0,
            ceiling,
        };
        proof {
            lemma_visited_empty();
            assert(e@ =~~= init_view(grid_view(e.grid@), ceiling as int));
        }
        e
    }

    /// Append the operation for cell (r, c + 1), when present, at the back.
    fn push_east(&mut self, r: usize, c: usize)
        ensures
            final(self)@ == with_queue_back(old(self)@,
                unit_ops(old(self)@.grid, r as int, c as int + 1)),
    {
        let ghost g = old(self)@.grid;
        let ghost q0 = old(self)@.queue;
        let mut pushed = false;
        if r < self.grid.len() {
            let row: &Vec<char> = &self.grid[r];
            proof {
                assert(g[r as int] == self.grid@[r as int]@);
                assert(row@ == g[r as int]);
            }
            let l: usize = row.len();
            if 1 <= l && c < l - 1 {
                let ch: char = row[c + 1];
                let o = Operation { op: ch, row: r, col: c + 1 };
                self.queue.push_back(o);
                pushed = true;
                proof {
                    lemma_queue_after_push(q0, g, r as int, c as int + 1, o);
                    lemma_is_queue_back(old(self)@, self@, unit_ops(g, r as int, c as int + 1));
                }
            }
        }
        if !pushed {
            proof {
                lemma_queue_after_skip(q0, g, r as int, c as int + 1);
                lemma_is_queue_back(old(self)@, self@, unit_ops(g, r as int, c as int + 1));
            }
        }
    }

    /// Append the operation for cell (r, c - 1), when present, at the back.
    fn push_west(&mut self, r: usize, c: usize)
        ensures
            final(self)@ == with_queue_back(old(self)@,
                unit_ops(old(self)@.grid, r as int, c as int - 1)),
    {
        let ghost g = old(self)@.grid;
        let ghost q0 = old(self)@.queue;
        let mut pushed = false;
        if c >= 1 && r < self.grid.len() {
            let row: &Vec<char> = &self.grid[r];
            proof {
                assert(g[r as int] == self.grid@[r as int]@);
                assert(row@ == g[r as int]);
            }
            if c - 1 < row.len() {
                let ch: char = row[c - 1];
                let o = Operation { op: ch, row: r, col: c - 1 };
                self.queue.push_back(o);
                pushed = true;
                proof {
                    lemma_queue_after_push(q0, g, r as int, c as int - 1, o);
                    lemma_is_queue_back(old(self)@, self@, unit_ops(g, r as int, c as int - 1));
                }
            }
        }
        if !pushed {
            proof {
                lemma_queue_after_skip(q0, g, r as int, c as int - 1);
                lemma_is_queue_back(old(self)@, self@, unit_ops(g, r as int, c as int - 1));
            }
        }
    }

    /// Append the operation for cell (r - 1, c), when present, at the back.
    fn push_north(&mut self, r: usize, c: usize)
        ensures
            final(self)@ == with_queue_back(old(self)@,
                unit_ops(old(self)@.grid, r as int - 1, c as int)),
    {
        let ghost g = old(self)@.grid;
        let ghost q0 = old(self)@.queue;
        let mut pushed = false;
        if r >= 1 && r - 1 < self.grid.len() {
            let row: &Vec<char> = &self.grid[r - 1];
            proof {
                assert(g[r as int - 1] == self.grid@[r as int - 1]@);
                assert(row@ == g[r as int - 1]);
            }
            if c < row.len() {
                let ch: char = row[c];
                let o = Operation { op: ch, row: r - 1, col: c };
                self.queue.push_back(o);
                pushed = true;
                proof {
                    lemma_queue_after_push(q0, g, r as int - 1, c as int, o);
                    lemma_is_queue_back(old(self)@, self@, unit_ops(g, r as int - 1, c as int));
                }
            }
        }
        if !pushed {
            proof {
                lemma_queue_after_skip(q0, g, r as int - 1, c as int);
                lemma_is_queue_back(old(self)@, self@, unit_ops(g, r as int - 1, c as int));
            }
        }
    }

    /// Append the operation for cell (r + 1, c), when present, at the back.
    fn push_south(&mut self, r: usize, c: usize)
        ensures
            final(self)@ == with_queue_back(old(self)@,
                unit_ops(old(self)@.grid, r as int + 1, c as int)),
    {
        let ghost g = old(self)@.grid;
        let ghost q0 = old(self)@.queue;
        let mut pushed = false;
        if self.grid.len() >= 1 && r < self.grid.len() - 1 {
            let row: &Vec<char> = &self.grid[r + 1];
            proof {
                assert(g[r as int + 1] == self.grid@[r as int + 1]@);
                assert(row@ == g[r as int + 1]);
            }
            if c < row.len() {
                let ch: char = row[c];
                let o = Operation { op: ch, row: r + 1, col: c };
                self.queue.push_back(o);
                pushed = true;
                proof {
                    lemma_queue_after_push(q0, g, r as int + 1, c as int, o);
                    lemma_is_queue_back(old(self)@, self@, unit_ops(g, r as int + 1, c as int));
                }
            }
        }
        if !pushed {
            proof {
                lemma_queue_after_skip(q0, g, r as int + 1, c as int);
                lemma_is_queue_back(old(self)@, self@, unit_ops(g, r as int + 1, c as int));
            }
        }
    }

    /// Cardinal propagation: north, west, east, south, in that order.
    fn push_cardinal(&mut self, r: usize, c: usize)
        ensures
            final(self)@ == with_queue_back(old(self)@,
                cardinal_ops(old(self)@.grid, r as int, c as int)),
    {
        self.push_north(r, c);
        self.push_west(r, c);
        self.push_east(r, c);
        self.push_south(r, c);
        proof {
            assert(self@ =~~= with_queue_back(old(self)@,
                cardinal_ops(old(self)@.grid, r as int, c as int)));
        }
    }

    /// Horizontal propagation: west then east.
    fn push_horizontal(&mut self, r: usize, c: usize)
        ensures
            final(self)@ == with_queue_back(old(self)@,
                horizontal_ops(old(self)@.grid, r as int, c as int)),
    {
        self.push_west(r, c);
        self.push_east(r, c);
        proof {
            assert(self@ =~~= with_queue_back(old(self)@,
                horizontal_ops(old(self)@.grid, r as int, c as int)));
        }
    }

    /// Vertical propagation: north then south.
    fn push_vertical(&mut self, r: usize, c: usize)
        ensures
            final(self)@ == with_queue_back(old(self)@,
                vertical_ops(old(self)@.grid, r as int, c as int)),
    {
        self.push_north(r, c);
        self.push_south(r, c);
        proof {
            assert(self@ =~~= with_queue_back(old(self)@,
                vertical_ops(old(self)@.grid, r as int, c as int)));
        }
    }

    /// Normal-mode dispatch.
    fn dispatch_normal(&mut self, op: Operation) -> (e: StepEvent)
        requires
            view_wf(old(self)@),
            old(self)@.phase == Phase::Ready,
            old(self)@.mode == Mode::Normal,
        ensures
            view_wf(final(self)@),
            final(self)@ == dispatch_normal_spec(old(self)@, op).0,
            e == dispatch_normal_spec(old(self)@, op).1,
    {
        let ch = op.op;
        if ch == 'S' || ch == '+' {
            self.push_cardinal(op.row, op.col);
            StepEvent::Running
        } else if ch == 'Y' {
            let popped = self.values.pop();
            self.push_horizontal(op.row, op.col);
            let down = match popped {
                Option::None => true,
                Option::Some(x) => x == 0,
            };
            if down {
                self.push_south(op.row, op.col);
            }
            proof {
                assert(self@ =~~= dispatch_normal_spec(old(self)@, op).0);
            }
            StepEvent::Running
        } else if ch == '#' {
            self.push_cardinal(op.row, op.col);
            self.mode = Mode::Number;
            proof {
                assert(self@ =~~= dispatch_normal_spec(old(self)@, op).0);
            }
            StepEvent::Running
        } else if ch == 'i' {
            self.push_cardinal(op.row, op.col);
            self.phase = Phase::Awaiting;
            proof {
                assert(self@ =~~= dispatch_normal_spec(old(self)@, op).0);
            }
            StepEvent::Input
        } else if ch == 'P' {
            match self.values.pop() {
                Option::None => {
                    self.phase = Phase::Stopped;
                    proof {
                        assert(self@ =~~= dispatch_normal_spec(old(self)@, op).0);
                    }
                    StepEvent::Fault(FaultKind::StackUnderflow, 'P')
                },
                Option::Some(v) => {
                    self.output.push(#[verifier::truncate] (v as u8) as char);
                    self.push_cardinal(op.row, op.col);
                    proof {
                        assert(self@ =~~= dispatch_normal_spec(old(self)@, op).0);
                    }
                    StepEvent::Running
                },
            }
        } else if ch == 'p' {
            match self.values.pop() {
                Option::None => {
                    self.phase = Phase::Stopped;
                    proof {
                        assert(self@ =~~= dispatch_normal_spec(old(self)@, op).0);
                    }
                    StepEvent::Fault(FaultKind::StackUnderflow, 'p')
                },
                Option::Some(v) => {
                    let mut text = format_u32(v);
                    self.output.append(&mut text);
                    self.push_cardinal(op.row, op.col);
                    proof {
                        assert(self@ =~~= dispatch_normal_spec(old(self)@, op).0);
                    }
                    StepEvent::Running
                },
            }
        } else if ch == '|' {
            self.push_vertical(op.row, op.col);
            StepEvent::Running
        } else if ch == '-' {
            self.push_horizontal(op.row, op.col);
            StepEvent::Running
        } else if ch == 'T' {
            self.phase = Phase::Stopped;
            proof {
                assert(self@ =~~= dispatch_normal_spec(old(self)@, op).0);
            }
            StepEvent::Halted(Status::Success)
        } else if ch == '&' {
            if self.values.len() < 2 {
                self.phase = Phase::Stopped;
                proof {
                    assert(self@ =~~= dispatch_normal_spec(old(self)@, op).0);
                }
                StepEvent::Fault(FaultKind::StackUnderflow, '&')
            } else {
                let n1 = match self.values.pop() {
                    Option::Some(v) => v,
                    Option::None => 0,
                };
                let n2 = match self.values.pop() {
                    Option::Some(v) => v,
                    Option::None => 0,
                };
                let ri = n1 as usize;
                let ci = n2 as usize;
                match crate::grid::lookup(&self.grid, ri, ci) {
                    Option::Some(target) => {
                        let o = Operation { op: target, row: ri, col: ci };
                        self.queue.push_front(o);
                        proof {
                            lemma_queue_after_front(old(self)@.queue, old(self)@.grid,
                                n1 as int, n2 as int, o);
                        }
                    },
                    Option::None => {
                        proof {
                            lemma_queue_front_skip(old(self)@.queue, old(self)@.grid,
                                n1 as int, n2 as int);
                        }
                    },
                }
                self.push_cardinal(op.row, op.col);
                proof {
                    assert(old(self)@.values.take(old(self)@.values.len() - 2)
                        =~= old(self)@.values.drop_last().drop_last());
                    assert(self@.queue == unit_ops(old(self)@.grid, n1 as int, n2 as int)
                        + old(self)@.queue
                        + cardinal_ops(old(self)@.grid, op.row as int, op.col as int));
                    assert(self@ =~~= dispatch_normal_spec(old(self)@, op).0);
                }
                StepEvent::Running
            }
        } else if ch == 'R' {
            self.visited = Vec::new();
            self.push_cardinal(op.row, op.col);
            proof {
                lemma_visited_empty();
                assert(self@ =~~= dispatch_normal_spec(old(self)@, op).0);
            }
            StepEvent::Running
        } else if ch == '>' {
            self.push_east(op.row, op.col);
            StepEvent::Running
        } else if ch == '<' {
            self.push_west(op.row, op.col);
            StepEvent::Running
        } else if ch == '^' {
            self.push_north(op.row, op.col);
            StepEvent::Running
        } else if ch == 'v' {
            self.push_south(op.row, op.col);
            StepEvent::Running
        } else if ch == 'M' {
            self.push_cardinal(op.row, op.col);
            self.mode = Mode::Arithmetic;
            proof {
                assert(self@ =~~= dispatch_normal_spec(old(self)@, op).0);
            }
            StepEvent::Running
        } else {
            StepEvent::Running
        }
    }

    /// Number-mode dispatch.
    fn dispatch_number(&mut self, op: Operation) -> (e: StepEvent)
        requires
            view_wf(old(self)@),
            old(self)@.phase == Phase::Ready,
            old(self)@.mode == Mode::Number,
        ensures
            view_wf(final(self)@),
            final(self)@ == dispatch_number_spec(old(self)@, op).0,
            e == dispatch_number_spec(old(self)@, op).1,
    {
        let ch = op.op;
        if ch == 'D' {
            match self.values.pop() {
                Option::None => {
                    self.phase = Phase::Stopped;
                    proof {
                        assert(self@ =~~= dispatch_number_spec(old(self)@, op).0);
                    }
                    StepEvent::Fault(FaultKind::StackUnderflow, 'D')
                },
                Option::Some(v) => {
                    self.values.push(v);
                    self.values.push(v);
                    self.push_cardinal(op.row, op.col);
                    proof {
                        assert(old(self)@.values.drop_last().push(v)
                            =~= old(self)@.values);
                        assert(self@ =~~= dispatch_number_spec(old(self)@, op).0);
                    }
                    StepEvent::Running
                },
            }
        } else if ch == '-' {
            self.push_horizontal(op.row, op.col);
            StepEvent::Running
        } else if ch == '|' {
            self.push_vertical(op.row, op.col);
            StepEvent::Running
        } else if ch == '+' {
            self.push_cardinal(op.row, op.col);
            StepEvent::Running
        } else if 48 <= ch as u32 && ch as u32 <= 57 {
            self.literal.push(ch);
            self.push_cardinal(op.row, op.col);
            proof {
                assert(self@ =~~= dispatch_number_spec(old(self)@, op).0);
            }
            StepEvent::Running
        } else if ch == '&' {
            match parse_u32_digits(&self.literal) {
                Option::Some(v) => {
                    self.literal = Vec::new();
                    self.push_cardinal(op.row, op.col);
                    self.values.push(v);
                    proof {
                        assert(self@ =~~= dispatch_number_spec(old(self)@, op).0);
                    }
                    StepEvent::Running
                },
                Option::None => {
                    self.phase = Phase::Stopped;
                    proof {
                        assert(self@ =~~= dispatch_number_spec(old(self)@, op).0);
                    }
                    StepEvent::Fault(FaultKind::MalformedLiteral, '&')
                },
            }
        } else if ch == '#' {
            self.push_cardinal(op.row, op.col);
            self.mode = Mode::Normal;
            proof {
                assert(self@ =~~= dispatch_number_spec(old(self)@, op).0);
            }
            StepEvent::Running
        } else if ch == 'C' {
            self.literal = Vec::new();
            self.values = Vec::new();
            self.push_cardinal(op.row, op.col);
            self.mode = Mode::Normal;
            proof {
                assert(self@ =~~= dispatch_number_spec(old(self)@, op).0);
            }
            StepEvent::Running
        } else {
            StepEvent::Running
        }
    }

    /// Arithmetic-mode dispatch.
    #[verifier::rlimit(60)]
    fn dispatch_arith(&mut self, op: Operation) -> (e: StepEvent)
        requires
            view_wf(old(self)@),
            old(self)@.phase == Phase::Ready,
            old(self)@.mode == Mode::Arithmetic,
        ensures
            view_wf(final(self)@),
            final(self)@ == dispatch_arith_spec(old(self)@, op).0,
            e == dispatch_arith_spec(old(self)@, op).1,
    {
        let ch = op.op;
        if ch == '*' || ch == '+' || ch == '-' || ch == '/' {
            if self.values.len() < 2 {
                self.phase = Phase::Stopped;
                proof {
                    assert(self@ =~~= dispatch_arith_spec(old(self)@, op).0);
                }
                StepEvent::Fault(FaultKind::StackUnderflow, ch)
            } else {
                let vlen = self.values.len();
                let n1 = self.values[vlen - 1];
                let n2 = self.values[vlen - 2];
                let ok: Option<u32> = if ch == '*' {
                    proof {
                        assert(n1 as int * n2 as int <= 0xffff_ffff * 0xffff_ffff)
                            by (nonlinear_arith)
                            requires
                                0 <= n1 as int <= 0xffff_ffff,
                                0 <= n2 as int <= 0xffff_ffff,
                        ;
                    }
                    let wide: u64 = n1 as u64 * n2 as u64;
                    if wide <= 0xffff_ffff {
                        Option::Some(wide as u32)
                    } else {
                        Option::None
                    }
                } else if ch == '+' {
                    let wide: u64 = n1 as u64 + n2 as u64;
                    if wide <= 0xffff_ffff {
                        Option::Some(wide as u32)
                    } else {
                        Option::None
                    }
                } else if ch == '-' {
                    if n1 <= n2 {
                        Option::Some(n2 - n1)
                    } else {
                        Option::None
                    }
                } else {
                    if n2 == 0 {
                        Option::None
                    } else {
                        Option::Some(n1 / n2)
                    }
                };
                match ok {
                    Option::Some(res) => {
                        self.values.pop();
                        self.values.pop();
                        proof {
                            assert(old(self)@.values.take(old(self)@.values.len() - 2)
                                =~= old(self)@.values.drop_last().drop_last());
                        }
                        self.values.push(res);
                        self.push_cardinal(op.row, op.col);
                        proof {
                            assert(res as int == arith_result(op.op,
                                old(self)@.values.last() as int,
                                old(self)@.values[old(self)@.values.len() - 2] as int));
                            assert(res == arith_result(op.op, old(self)@.values.last() as int,
                                old(self)@.values[old(self)@.values.len() - 2] as int) as u32);
                            assert(self@.values == old(self)@.values.take(
                                old(self)@.values.len() - 2).push(res));
                            lemma_arith_success(old(self)@, self@, op, res);
                        }
                        StepEvent::Running
                    },
                    Option::None => {
                        self.phase = Phase::Stopped;
                        proof {
                            assert(self@ =~~= dispatch_arith_spec(old(self)@, op).0);
                        }
                        StepEvent::Fault(FaultKind::ArithmeticFault, ch)
                    },
                }
            }
        } else if ch == 'M' {
            self.push_cardinal(op.row, op.col);
            self.mode = Mode::Normal;
            proof {
                assert(self@ =~~= dispatch_arith_spec(old(self)@, op).0);
            }
            StepEvent::Running
        } else {
            StepEvent::Running
        }
    }

    /// One dispatch-loop iteration. The returned event and the new state are
    /// exactly those of the specification transition [`step_tr`].
    pub fn step(&mut self) -> (e: StepEvent)
        requires
            old(self).wf(),
            old(self)@.phase == Phase::Ready,
        ensures
            final(self).wf(),
            final(self)@ == step_tr(old(self)@).0,
            e == step_tr(old(self)@).1,
    {
        if self.ceiling > 0 {
            self.steps = self.steps + 1;
            if self.steps == self.ceiling {
                self.phase = Phase::Stopped;
                proof {
                    assert(self@ =~~= step_tr(old(self)@).0);
                }
                return StepEvent::Halted(Status::Timeout);
            }
        }
        if self.queue.len() == 0 {
            self.phase = Phase::Stopped;
            proof {
                assert(self@ =~~= step_tr(old(self)@).0);
            }
            return StepEvent::Halted(Status::Idle);
        }
        let op = match self.queue.pop_front() {
            Option::Some(x) => x,
            Option::None => Operation { op: ' ', row: 0, col: 0 },
        };
        if visited_contains(&self.visited, op) {
            proof {
                assert(self@ =~~= step_tr(old(self)@).0);
            }
            return StepEvent::Running;
        }
        self.visited.push(op);
        proof {
            lemma_visited_push(old(self).visited@, op);
        }
        let m = self.mode;
        let e = match m {
            Mode::Normal => self.dispatch_normal(op),
            Mode::Number => self.dispatch_number(op),
            Mode::Arithmetic => self.dispatch_arith(op),
        };
        proof {
            assert(final(self)@ == step_tr(old(self)@).0);
            assert(e == step_tr(old(self)@).1);
        }
        e
    }

    /// Resume a run suspended on the `i` opcode: push the operator-supplied
    /// value and return to the ready phase. Nothing else changes.
    pub fn provide_input(&mut self, v: u32)
        requires
            old(self).wf(),
            old(self)@.phase == Phase::Awaiting,
        ensures
            final(self).wf(),
            final(self)@ == (EngineView {
                phase: Phase::Ready,
                values: old(self)@.values.push(v),
                ..old(self)@
            }),
    {
        self.values.push(v);
        self.phase = Phase::Ready;
        proof {
            assert(self@ =~~= (EngineView {
                phase: Phase::Ready,
                values: old(self)@.values.push(v),
                ..old(self)@
            }));
        }
    }

    /// The accumulated output characters.
    pub fn output(&self) -> (r: &Vec<char>)
        ensures
            r@ == self@.output,
    {
        &self.output
    }

    /// The value stack, bottom first.
    pub fn values(&self) -> (r: &Vec<u32>)
        ensures
            r@ == self@.values,
    {
        &self.values
    }

    /// The literal buffer, in the order the digits arrived.
    pub fn literal(&self) -> (r: &Vec<char>)
        ensures
            r@ == self@.literal,
    {
        &self.literal
    }

    /// The pending operations, front first.
    pub fn queue_ops(&self) -> (r: &VecDeque<Operation>)
        ensures
            r@ == self@.queue,
    {
        &self.queue
    }

    /// The current interpreter mode.
    pub fn mode(&self) -> (m: Mode)
        ensures
            m == self@.mode,
    {
        self.mode
    }

    /// The current phase.
    pub fn phase(&self) -> (p: Phase)
        ensures
            p == self@.phase,
    {
        self.phase
    }

    /// How many dispatch iterations have run.
    pub fn steps(&self) -> (n: u64)
        ensures
            n as int == self@.steps,
    {
        self.steps
    }

    /// Whether `x` sits in the visited set.
    pub fn was_visited(&self, x: Operation) -> (r: bool)
        ensures
            r == self@.visited.contains(x),
    {
        visited_contains(&self.visited, x)
    }

    /// Drive the engine until it suspends for input, halts, or faults.
    /// A positive ceiling bounds the loop; the run ends in Timeout exactly
    /// when the counter reaches the ceiling.
    pub fn run(&mut self) -> (e: StepEvent)
        requires
            old(self).wf(),
            old(self)@.phase == Phase::Ready,
            old(self)@.ceiling > 0,
        ensures
            final(self).wf(),
            !(e is Running),
            (final(self)@, e) == run_tr(old(self)@),
            final(self)@.ceiling == old(self)@.ceiling,
            final(self)@.grid == old(self)@.grid,
            e == StepEvent::Halted(Status::Timeout) <==> final(self)@.steps == final(self)@.ceiling,
            e is Input ==> final(self)@.phase == Phase::Awaiting,
            (e is Halted || e is Fault) ==> final(self)@.phase == Phase::Stopped,
    {
        loop
            invariant
                self.wf(),
                self@.phase == Phase::Ready,
                self@.ceiling == old(self)@.ceiling,
                self@.grid == old(self)@.grid,
                self@.ceiling > 0,
                run_tr(old(self)@) == run_tr(self@),
            decreases self@.ceiling - self@.steps,
        {
            let ghost before = self@;
            let e = self.step();
            proof {
                lemma_step_events(before);
            }
            match e {
                StepEvent::Running => {
                    proof {
                        assert(run_tr(before) == run_tr(self@));
                    }
                },
                _ => {
                    proof {
                        assert(run_tr(before) == (self@, e));
                    }
                    return e;
                },
            }
        }
    }
}


/// How each step event constrains the successor state: Running keeps the
/// engine ready, Input suspends it, halts and faults stop it; with a positive
/// ceiling the counter advances by exactly one each iteration, and Timeout is
/// reported exactly when the counter reaches the ceiling.
pub proof fn lemma_step_events(s: EngineView)
    requires
        view_wf(s),
        s.phase == Phase::Ready,
    ensures
        view_wf(step_tr(s).0),
        step_tr(s).0.ceiling == s.ceiling,
        step_tr(s).0.grid == s.grid,
        s.ceiling > 0 ==> step_tr(s).0.steps == s.steps + 1,
        s.ceiling == 0 ==> step_tr(s).0.steps == s.steps,
        step_tr(s).1 == StepEvent::Running ==> step_tr(s).0.phase == Phase::Ready,
        step_tr(s).1 == StepEvent::Input ==> step_tr(s).0.phase == Phase::Awaiting,
        (step_tr(s).1 is Halted || step_tr(s).1 is Fault) ==> step_tr(s).0.phase == Phase::Stopped,
        step_tr(s).1 == StepEvent::Halted(Status::Timeout)
            <==> (s.ceiling > 0 && s.steps + 1 == s.ceiling),
        step_tr(s).1 == StepEvent::Halted(Status::Timeout)
            ==> step_tr(s).0.steps == step_tr(s).0.ceiling,
        !(step_tr(s).1 == StepEvent::Halted(Status::Timeout)) && s.ceiling > 0
            ==> step_tr(s).0.steps < step_tr(s).0.ceiling,
{
}

} // verus!
