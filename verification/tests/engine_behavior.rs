//! Whole-program runs through the engine: opcode semantics, propagation,
//! termination statuses, and faults.

use avrc::engine::{Engine, FaultKind, Mode, Status, StepEvent};
use avrc::grid::{lookup, Operation};

fn grid(rows: &[&str]) -> Vec<Vec<char>> {
    rows.iter().map(|r| r.chars().collect()).collect()
}

fn engine(rows: &[&str], ceiling: u64) -> Engine {
    Engine::new(grid(rows), ceiling)
}

fn run(e: &mut Engine) -> StepEvent {
    e.run()
}

#[test]
fn number_literal_digits_then_parse() {
    let mut e = engine(&["#42&"], 1000);
    let ev = run(&mut e);
    assert!(matches!(ev, StepEvent::Halted(Status::Idle)));
    assert_eq!(e.values(), &vec![42u32]);
    assert_eq!(e.literal().len(), 0);
}

#[test]
fn duplicate_top_of_stack() {
    let mut e = engine(&["#5&D"], 1000);
    let ev = run(&mut e);
    assert!(matches!(ev, StepEvent::Halted(Status::Idle)));
    assert_eq!(e.values(), &vec![5u32, 5u32]);
}

#[test]
fn print_low_byte_as_char() {
    let mut e = engine(&["#65&#P"], 1000);
    let ev = run(&mut e);
    assert!(matches!(ev, StepEvent::Halted(Status::Idle)));
    assert_eq!(e.output().iter().collect::<String>(), "A");
    assert_eq!(e.values().len(), 0);
}

#[test]
fn print_low_byte_wraps_at_256() {
    let mut e = engine(&["#321&#P"], 1000);
    run(&mut e);
    assert_eq!(e.output().iter().collect::<String>(), "A");
}

#[test]
fn print_decimal_text() {
    let mut e = engine(&["#65&#p"], 1000);
    let ev = run(&mut e);
    assert!(matches!(ev, StepEvent::Halted(Status::Idle)));
    assert_eq!(e.output().iter().collect::<String>(), "65");
}

#[test]
fn print_decimal_extremes() {
    let mut e = engine(&["#4294967295&#p"], 1000);
    run(&mut e);
    assert_eq!(e.output().iter().collect::<String>(), "4294967295");
    let mut z = engine(&["#0&#p"], 1000);
    run(&mut z);
    assert_eq!(z.output().iter().collect::<String>(), "0");
}

#[test]
fn subtraction_is_deeper_minus_top() {
    // push 7 then 3: n1 = 3 on top, n2 = 7 beneath; '-' yields 7 - 3 = 4.
    let mut e = engine(&["#7&3&#M-"], 1000);
    let ev = run(&mut e);
    assert!(matches!(ev, StepEvent::Halted(Status::Idle)));
    assert_eq!(e.values(), &vec![4u32]);
}

#[test]
fn division_is_top_over_deeper() {
    // push 7 then 3: '/' yields 3 / 7 = 0 — divisor is the deeper value.
    let mut e = engine(&["#7&3&#M/"], 1000);
    let ev = run(&mut e);
    assert!(matches!(ev, StepEvent::Halted(Status::Idle)));
    assert_eq!(e.values(), &vec![0u32]);
}

#[test]
fn multiplication_and_addition() {
    let mut e = engine(&["#6&7&#M*"], 1000);
    run(&mut e);
    assert_eq!(e.values(), &vec![42u32]);
    let mut a = engine(&["#6&7&#M+"], 1000);
    run(&mut a);
    assert_eq!(a.values(), &vec![13u32]);
}

#[test]
fn timeout_exactly_at_ceiling() {
    // Two R cells clear the visited set forever: propagation never dies.
    let mut e = engine(&["RR"], 57);
    let ev = run(&mut e);
    assert!(matches!(ev, StepEvent::Halted(Status::Timeout)));
    assert_eq!(e.steps(), 57);
}

#[test]
fn timeout_at_ceiling_one_runs_nothing() {
    let mut e = engine(&["T"], 1);
    let ev = run(&mut e);
    assert!(matches!(ev, StepEvent::Halted(Status::Timeout)));
    assert_eq!(e.steps(), 1);
}

#[test]
fn idle_when_queue_runs_dry() {
    let mut e = engine(&["S"], 1000);
    let ev = run(&mut e);
    assert!(matches!(ev, StepEvent::Halted(Status::Idle)));
    assert_eq!(e.steps(), 2);
}

#[test]
fn success_on_t() {
    let mut e = engine(&["T"], 1000);
    let ev = run(&mut e);
    assert!(matches!(ev, StepEvent::Halted(Status::Success)));
    assert_eq!(e.steps(), 1);
}

#[test]
fn subroutine_call_enqueues_at_front() {
    // Stack ends as [3, 5]: 5 popped first is the row, 3 the column.
    let rows = ["#3&5&#&", "", "", "", "", "   T"];
    let mut e = engine(&rows, 1000);
    for _ in 0..12 {
        let ev = e.step();
        assert!(matches!(ev, StepEvent::Running));
    }
    // The called cell stands at the front, before the caller's successors.
    let q = e.queue_ops();
    assert!(q.len() > 1);
    assert_eq!(q[0], Operation { op: 'T', row: 5, col: 3 });
    let ev = e.step();
    assert!(matches!(ev, StepEvent::Halted(Status::Success)));
}

#[test]
fn arrow_east_enqueues_exactly_one() {
    let mut e = engine(&[">T"], 1000);
    let ev = e.step();
    assert!(matches!(ev, StepEvent::Running));
    assert_eq!(e.queue_ops().len(), 1);
    assert_eq!(e.queue_ops()[0], Operation { op: 'T', row: 0, col: 1 });
    let ev = e.step();
    assert!(matches!(ev, StepEvent::Halted(Status::Success)));
}

#[test]
fn arrow_south_enqueues_exactly_one() {
    let mut e = engine(&["v", "T"], 1000);
    let ev = e.step();
    assert!(matches!(ev, StepEvent::Running));
    assert_eq!(e.queue_ops().len(), 1);
    assert_eq!(e.queue_ops()[0], Operation { op: 'T', row: 1, col: 0 });
}

#[test]
fn arrows_at_edges_enqueue_nothing() {
    for prog in ["<", "^", ">"] {
        let mut e = engine(&[prog], 1000);
        let ev = e.step();
        assert!(matches!(ev, StepEvent::Running));
        assert_eq!(e.queue_ops().len(), 0);
        let ev = e.step();
        assert!(matches!(ev, StepEvent::Halted(Status::Idle)));
    }
    let mut d = engine(&["v"], 1000);
    d.step();
    assert_eq!(d.queue_ops().len(), 0);
}

#[test]
fn lookup_absent_at_edges_and_corners() {
    let g = grid(&["ab", "c"]);
    assert_eq!(lookup(&g, 0, 0), Some('a'));
    assert_eq!(lookup(&g, 0, 1), Some('b'));
    assert_eq!(lookup(&g, 1, 0), Some('c'));
    assert_eq!(lookup(&g, 1, 1), None);
    assert_eq!(lookup(&g, 0, 2), None);
    assert_eq!(lookup(&g, 2, 0), None);
    assert_eq!(lookup(&g, 999999, 999999), None);
}

#[test]
fn visited_operation_is_skipped() {
    // '1' enqueues the already-run '#': the skip must leave mode and buffer
    // alone, or the literal would change.
    let mut e = engine(&["#1w"], 1000);
    let ev = run(&mut e);
    assert!(matches!(ev, StepEvent::Halted(Status::Idle)));
    assert_eq!(e.literal(), &vec!['1']);
    assert_eq!(e.mode(), Mode::Number);
    assert!(e.was_visited(Operation { op: '#', row: 0, col: 0 }));
}

#[test]
fn reset_clears_visited_but_not_values() {
    let mut e = engine(&["#5&#R"], 1000);
    for _ in 0..8 {
        let ev = e.step();
        assert!(matches!(ev, StepEvent::Running));
    }
    // The eighth step ran R: the visited set is empty, the stack is intact.
    assert_eq!(e.values(), &vec![5u32]);
    assert!(!e.was_visited(Operation { op: '#', row: 0, col: 0 }));
    assert!(!e.was_visited(Operation { op: 'R', row: 0, col: 4 }));
    assert_eq!(e.output().len(), 0);
    // Freed of the visited guard, '#' re-runs and the Number-mode '&' now
    // parses an empty buffer: the run aborts.
    let ev = run(&mut e);
    assert!(matches!(ev, StepEvent::Fault(FaultKind::MalformedLiteral, '&')));
}

#[test]
fn reset_keeps_propagation_alive() {
    // Without R the two cells would run once each and the queue would dry up.
    let mut e = engine(&["RR"], 10);
    let ev = run(&mut e);
    assert!(matches!(ev, StepEvent::Halted(Status::Timeout)));
}

#[test]
fn branch_down_taken_on_zero() {
    let mut e = engine(&["#0&#Y", "    T"], 1000);
    let ev = run(&mut e);
    assert!(matches!(ev, StepEvent::Halted(Status::Success)));
}

#[test]
fn branch_down_taken_on_empty_stack() {
    let mut e = engine(&["Y", "T"], 1000);
    let ev = run(&mut e);
    assert!(matches!(ev, StepEvent::Halted(Status::Success)));
}

#[test]
fn branch_down_not_taken_on_nonzero() {
    let mut e = engine(&["#1&#Y", "    T"], 1000);
    let ev = run(&mut e);
    assert!(matches!(ev, StepEvent::Halted(Status::Idle)));
    assert_eq!(e.values().len(), 0);
}

#[test]
fn input_opcode_suspends_and_resumes() {
    let mut e = engine(&["ip"], 1000);
    let ev = run(&mut e);
    assert!(matches!(ev, StepEvent::Input));
    e.provide_input(65);
    let ev = run(&mut e);
    assert!(matches!(ev, StepEvent::Halted(Status::Idle)));
    assert_eq!(e.output().iter().collect::<String>(), "65");
}

#[test]
fn clear_opcode_wipes_stack_and_buffer() {
    let mut e = engine(&["#5&1C"], 1000);
    let ev = run(&mut e);
    assert!(matches!(ev, StepEvent::Halted(Status::Idle)));
    assert_eq!(e.values().len(), 0);
    assert_eq!(e.literal().len(), 0);
    assert_eq!(e.mode(), Mode::Normal);
}

#[test]
fn underflow_faults() {
    for (prog, opcode) in [("P", 'P'), ("p", 'p'), ("&", '&')] {
        let mut e = engine(&[prog], 1000);
        let ev = run(&mut e);
        assert!(matches!(ev, StepEvent::Fault(FaultKind::StackUnderflow, c) if c == opcode));
    }
    let mut d = engine(&["#D"], 1000);
    let ev = run(&mut d);
    assert!(matches!(ev, StepEvent::Fault(FaultKind::StackUnderflow, 'D')));
}

#[test]
fn malformed_literal_faults() {
    let mut e = engine(&["#&"], 1000);
    let ev = run(&mut e);
    assert!(matches!(ev, StepEvent::Fault(FaultKind::MalformedLiteral, '&')));
    let mut o = engine(&["#4294967296&"], 1000);
    let ev = run(&mut o);
    assert!(matches!(ev, StepEvent::Fault(FaultKind::MalformedLiteral, '&')));
}

#[test]
fn arithmetic_faults() {
    // push 0 then 3: '/' divides 3 by 0.
    let mut e = engine(&["#0&3&#M/"], 1000);
    let ev = run(&mut e);
    assert!(matches!(ev, StepEvent::Fault(FaultKind::ArithmeticFault, '/')));
    // push 3 then 7: '-' computes 3 - 7, below zero.
    let mut s = engine(&["#3&7&#M-"], 1000);
    let ev = run(&mut s);
    assert!(matches!(ev, StepEvent::Fault(FaultKind::ArithmeticFault, '-')));
    let mut a = engine(&["#4294967295&1&#M+"], 1000);
    let ev = run(&mut a);
    assert!(matches!(ev, StepEvent::Fault(FaultKind::ArithmeticFault, '+')));
    let mut m = engine(&["#65536&65536&#M*"], 1000);
    let ev = run(&mut m);
    assert!(matches!(ev, StepEvent::Fault(FaultKind::ArithmeticFault, '*')));
}

#[test]
fn unknown_characters_are_dead_ends() {
    let mut e = engine(&["xT"], 1000);
    let ev = run(&mut e);
    assert!(matches!(ev, StepEvent::Halted(Status::Idle)));
    assert_eq!(e.output().len(), 0);
}

#[test]
fn number_mode_w_is_a_dead_end() {
    let mut e = engine(&["#w5"], 1000);
    let ev = run(&mut e);
    assert!(matches!(ev, StepEvent::Halted(Status::Idle)));
    // 'w' propagates nothing, so the '5' beyond it never runs.
    assert_eq!(e.literal().len(), 0);
}
