//! Properties of the dispatch step, stated and proved once and for all over
//! the specification transition [`step_tr`].

use vstd::prelude::*;
use crate::grid::{Operation, cell_at, unit_ops, cardinal_ops, lemma_unit_ops_single,
    lemma_push_is_concat, lemma_concat_empty};
use crate::engine::{EngineView, Mode, Phase, StepEvent, step_tr, view_wf};

verus! {

/// An operation already in the visited set is never re-executed: the step
/// discards it, removing it from the queue and advancing the counter, while
/// the mode, the visited set, the value stack, the literal buffer, and the
/// output stay exactly as they were and nothing is enqueued.
pub proof fn lemma_visited_not_reexecuted(s: EngineView)
    requires
        view_wf(s),
        s.phase == Phase::Ready,
        !(s.ceiling > 0 && s.steps + 1 == s.ceiling),
        s.queue.len() > 0,
        s.visited.contains(s.queue[0]),
    ensures
        step_tr(s).1 == StepEvent::Running,
        step_tr(s).0.queue == s.queue.drop_first(),
        step_tr(s).0.visited == s.visited,
        step_tr(s).0.values == s.values,
        step_tr(s).0.output == s.output,
        step_tr(s).0.literal == s.literal,
        step_tr(s).0.mode == s.mode,
        step_tr(s).0.phase == Phase::Ready,
{
}

/// The visited set never shrinks in a step whose front operation is not an
/// unvisited `R` dispatched in Normal mode: re-execution stays barred until
/// `R` runs.
pub proof fn lemma_visited_monotone(s: EngineView)
    requires
        view_wf(s),
        s.phase == Phase::Ready,
        !(s.queue.len() > 0 && s.mode == Mode::Normal && s.queue[0].op == 'R'
            && !s.visited.contains(s.queue[0])),
    ensures
        s.visited.subset_of(step_tr(s).0.visited),
{
    assert forall|x: Operation| s.visited.contains(x)
        implies step_tr(s).0.visited.contains(x) by {}
}

/// `R` clears the visited set — even the `R` operation itself is forgotten —
/// but leaves the value stack, the output buffer, and the literal buffer
/// untouched, and propagates to the cardinal neighbors.
pub proof fn lemma_reset_clears_only_visited(s: EngineView)
    requires
        view_wf(s),
        s.phase == Phase::Ready,
        !(s.ceiling > 0 && s.steps + 1 == s.ceiling),
        s.queue.len() > 0,
        s.mode == Mode::Normal,
        s.queue[0].op == 'R',
        !s.visited.contains(s.queue[0]),
    ensures
        step_tr(s).1 == StepEvent::Running,
        step_tr(s).0.visited == Set::<Operation>::empty(),
        step_tr(s).0.values == s.values,
        step_tr(s).0.output == s.output,
        step_tr(s).0.literal == s.literal,
        step_tr(s).0.queue == s.queue.drop_first()
            + cardinal_ops(s.grid, s.queue[0].row as int, s.queue[0].col as int),
{
}

/// The `&` opcode pops the row first and the column beneath it second, and
/// when the called cell exists it is enqueued at the FRONT: it stands before
/// every operation that was already pending, and before the caller's own
/// cardinal successors.
pub proof fn lemma_subroutine_priority(s: EngineView, target: char)
    requires
        view_wf(s),
        s.phase == Phase::Ready,
        !(s.ceiling > 0 && s.steps + 1 == s.ceiling),
        s.queue.len() > 0,
        s.mode == Mode::Normal,
        s.queue[0].op == '&',
        !s.visited.contains(s.queue[0]),
        s.values.len() >= 2,
        cell_at(s.grid, s.values.last() as int, s.values[s.values.len() - 2] as int)
            == Option::Some(target),
    ensures
        step_tr(s).1 == StepEvent::Running,
        step_tr(s).0.values == s.values.take(s.values.len() - 2),
        step_tr(s).0.queue.len() > 0,
        step_tr(s).0.queue[0] == (Operation {
            op: target,
            row: s.values.last() as usize,
            col: s.values[s.values.len() - 2] as usize,
        }),
        step_tr(s).0.queue == unit_ops(s.grid, s.values.last() as int,
                s.values[s.values.len() - 2] as int)
            + s.queue.drop_first()
            + cardinal_ops(s.grid, s.queue[0].row as int, s.queue[0].col as int),
{
    let n1 = s.values.last() as int;
    let n2 = s.values[s.values.len() - 2] as int;
    let u = unit_ops(s.grid, n1, n2);
    assert(u =~= seq![Operation {
        op: target,
        row: s.values.last() as usize,
        col: s.values[s.values.len() - 2] as usize,
    }]);
    assert(step_tr(s).0.queue[0] == u[0]);
}

/// The row the arrow opcode at `op` names.
pub open spec fn arrow_row(op: Operation) -> int {
    if op.op == '^' {
        op.row - 1
    } else if op.op == 'v' {
        op.row + 1
    } else {
        op.row as int
    }
}

/// The column the arrow opcode at `op` names.
pub open spec fn arrow_col(op: Operation) -> int {
    if op.op == '>' {
        op.col + 1
    } else if op.op == '<' {
        op.col - 1
    } else {
        op.col as int
    }
}

/// In Normal mode, an arrow opcode whose named neighbor exists enqueues
/// exactly that one cell at the back and nothing else; mode, stacks, buffers,
/// and output are unchanged, and only the arrow itself is marked visited.
/// (In Number and Arithmetic modes the dispatch tables make the arrows
/// no-ops that enqueue nothing.)
pub proof fn lemma_arrow_present(s: EngineView, target: char)
    requires
        view_wf(s),
        s.phase == Phase::Ready,
        !(s.ceiling > 0 && s.steps + 1 == s.ceiling),
        s.queue.len() > 0,
        s.mode == Mode::Normal,
        s.queue[0].op == '>' || s.queue[0].op == '<' || s.queue[0].op == '^'
            || s.queue[0].op == 'v',
        !s.visited.contains(s.queue[0]),
        cell_at(s.grid, arrow_row(s.queue[0]), arrow_col(s.queue[0])) == Option::Some(target),
    ensures
        step_tr(s).1 == StepEvent::Running,
        step_tr(s).0.queue == s.queue.drop_first().push(Operation {
            op: target,
            row: arrow_row(s.queue[0]) as usize,
            col: arrow_col(s.queue[0]) as usize,
        }),
        step_tr(s).0.values == s.values,
        step_tr(s).0.output == s.output,
        step_tr(s).0.literal == s.literal,
        step_tr(s).0.mode == s.mode,
        step_tr(s).0.visited == s.visited.insert(s.queue[0]),
{
    let tr = arrow_row(s.queue[0]);
    let tc = arrow_col(s.queue[0]);
    let o = Operation { op: target, row: tr as usize, col: tc as usize };
    lemma_unit_ops_single(s.grid, tr, tc, o);
    lemma_push_is_concat(s.queue.drop_first(), o);
}

/// In Normal mode, an arrow opcode whose named neighbor is absent enqueues
/// nothing at all: beyond removing the arrow from the queue and marking it
/// visited, the step changes nothing.
pub proof fn lemma_arrow_absent(s: EngineView)
    requires
        view_wf(s),
        s.phase == Phase::Ready,
        !(s.ceiling > 0 && s.steps + 1 == s.ceiling),
        s.queue.len() > 0,
        s.mode == Mode::Normal,
        s.queue[0].op == '>' || s.queue[0].op == '<' || s.queue[0].op == '^'
            || s.queue[0].op == 'v',
        !s.visited.contains(s.queue[0]),
        cell_at(s.grid, arrow_row(s.queue[0]), arrow_col(s.queue[0])) is None,
    ensures
        step_tr(s).1 == StepEvent::Running,
        step_tr(s).0.queue == s.queue.drop_first(),
        step_tr(s).0.values == s.values,
        step_tr(s).0.output == s.output,
        step_tr(s).0.literal == s.literal,
        step_tr(s).0.mode == s.mode,
        step_tr(s).0.visited == s.visited.insert(s.queue[0]),
{
    lemma_concat_empty(s.queue.drop_first());
}

} // verus!
