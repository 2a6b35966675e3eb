use lin_rado_turing::driver::run_bb;
use lin_rado_turing::machine::{HaltReason, Machine};
use lin_rado_turing::program::{parse_program, Program};

fn parsed(prog_str: &str) -> Program {
    parse_program(prog_str).unwrap().into_program()
}

#[test]
fn test_bb_2_2_champion_halts() {
    // 2-state 2-symbol Busy Beaver champion: 4 marks after 6 steps
    let mut machine = Machine::new(parsed("1RB 1LB 1LA 1RH"));
    machine.run_until_halt(vec![], 6, None, None, false);
    let halt = machine.halt().unwrap().clone();
    assert!(halt.is_halted());
    assert!(!halt.is_limit());
    assert!(!halt.is_lr_recurrence());
    assert_eq!(
        (machine.marks(), halt.steps, halt.reason),
        (4, 6, HaltReason::Halt)
    );
}

#[test]
fn test_bb_3_2_shift_champion_halts() {
    let mut machine = Machine::new(parsed("1RB 1RH 1LB 0RC 1LC 1LA"));
    machine.run_until_halt(vec![], 30, None, None, false);
    let halt = machine.halt().unwrap().clone();
    assert_eq!(
        (machine.marks(), halt.steps, halt.reason),
        (5, 21, HaltReason::Halt)
    );
}

#[test]
fn test_earliest_blanking() {
    let mut machine = Machine::new(parsed("1RB 0RA 0LB 0LC 1RD 1LC 1RA 1LB"));
    machine.run_until_halt(vec![], 3, None, Some(0), false);
    let halt = machine.halt().unwrap().clone();
    assert_eq!((halt.steps, halt.reason), (3, HaltReason::Blanking));
    assert_eq!(machine.marks(), 0);
}

#[test]
fn test_quasihalt_detected() {
    let mut machine = Machine::new(parsed("1RB 1RC 1LC 1RA 1RA 1LA"));
    machine.run_until_halt(vec![], 11, Some(0), None, false);
    let halt = machine.halt().unwrap().clone();
    assert_eq!((halt.steps, halt.reason), (9, HaltReason::Quasihalt(2)));
}

#[test]
fn test_recurrence_detected() {
    let mut machine = Machine::new(parsed("1RB 1RH 0RC 1LB 1LA 0RB"));
    machine.run_until_halt(vec![], 19, Some(0), None, false);
    let halt = machine.halt().unwrap().clone();
    assert_eq!(
        (machine.marks(), halt.steps, halt.reason),
        (2, 9, HaltReason::Recurr(10))
    );
}

#[test]
fn test_undefined_transition_reported() {
    let mut machine = Machine::new(parsed("1RB ...  1LA 1RH"));
    machine.run_until_halt(vec![], 100, None, None, false);
    let halt = machine.halt().unwrap().clone();
    assert_eq!(halt.steps, 3);
    assert_eq!(
        halt.reason,
        HaltReason::Undefined("A1".to_string())
    );
}

#[test]
fn test_limit_exhaustion() {
    // the recurrence machine without its detector just runs out of budget
    let mut machine = Machine::new(parsed("1RB 1RH 0RC 1LB 1LA 0RB"));
    machine.run_until_halt(vec![], 50, None, None, false);
    let halt = machine.halt().unwrap().clone();
    assert!(halt.is_limit());
    assert_eq!((halt.steps, halt.reason), (50, HaltReason::XLimit));
}

#[test]
fn test_parallel_equivalence() {
    // the parallel bucket search commits exactly the sequential outcome
    for prog_str in [
        "1RB 1RH 0RC 1LB 1LA 0RB",
        "1RB 1RC 1LC 1RA 1RA 1LA",
        "1RB 0LB 1LA 0RB",
        "1RB 0LA 0RC 1LA 1LC 0RB",
    ] {
        let mut seq_machine = Machine::new(parsed(prog_str));
        seq_machine.run_until_halt(vec![], 250, Some(0), None, false);
        let mut par_machine = Machine::new(parsed(prog_str));
        par_machine.run_until_halt(vec![], 250, Some(0), None, true);
        assert_eq!(seq_machine.halt(), par_machine.halt());
        assert_eq!(seq_machine.marks(), par_machine.marks());
        assert_eq!(seq_machine.tape(), par_machine.tape());
    }
}

#[test]
fn test_determinism() {
    // two runs with the same arguments end identically
    let run = |parallel: bool| {
        let mut machine = Machine::new(parsed("1RB 1RC 1LC 1RA 1RA 1LA"));
        machine.run_until_halt(vec![], 40, Some(0), None, parallel);
        (machine.halt().unwrap().clone(), machine.marks())
    };
    assert_eq!(run(false), run(false));
    assert_eq!(run(false), run(true));
}

#[test]
fn test_rewind_restores_cycle_start() {
    // on detection the tape is rewound to the snapshot at the cycle start:
    // it must equal the tape of a plain run stopped just before that step
    let mut detected = Machine::new(parsed("1RB 1RH 0RC 1LB 1LA 0RB"));
    detected.run_until_halt(vec![], 40, Some(0), None, false);
    let halt = detected.halt().unwrap().clone();
    assert_eq!((halt.steps, halt.reason), (9, HaltReason::Recurr(10)));

    let mut replay = Machine::new(parsed("1RB 1RH 0RC 1LB 1LA 0RB"));
    replay.run_until_halt(vec![], 8, None, None, false);
    assert_eq!(replay.halt().unwrap().reason, HaltReason::XLimit);
    assert_eq!(detected.tape(), replay.tape());
    assert_eq!(detected.marks(), replay.marks());
}

/// The tape's marked span, leading and trailing blanks trimmed.
fn trimmed(cells: Vec<u8>) -> Vec<u8> {
    let lo = cells.iter().position(|&c| c != 0);
    let hi = cells.iter().rposition(|&c| c != 0);
    match (lo, hi) {
        (Some(lo), Some(hi)) => cells[lo..=hi].to_vec(),
        _ => vec![],
    }
}

#[test]
fn test_recurrence_replays_after_one_period() {
    // a reported cycle of period P at step p: running P further steps from
    // the cycle start reaches the same state and the same marked tape span,
    // up to the translation the cycle performs
    let prog = "1RB 1RH 0RC 1LB 1LA 0RB";
    let mut detected = Machine::new(parsed(prog));
    detected.run_until_halt(vec![], 40, Some(0), None, false);
    let halt = detected.halt().unwrap().clone();
    assert_eq!((halt.steps, halt.reason), (9, HaltReason::Recurr(10)));

    let mut at_start = Machine::new(parsed(prog));
    at_start.run_until_halt(vec![], 8, None, None, false);
    let mut one_period_on = Machine::new(parsed(prog));
    one_period_on.run_until_halt(vec![], 18, None, None, false);

    assert_eq!(at_start.state(), one_period_on.state());
    assert_eq!(at_start.marks(), one_period_on.marks());
    assert_eq!(
        trimmed(at_start.tape().iter()),
        trimmed(one_period_on.tape().iter())
    );
}

#[test]
fn test_trace_records_run() {
    let mut machine = Machine::new(parsed("1RB 1LB 1LA 1RH"));
    machine.set_trace(true);
    machine.run_until_halt(vec![], 6, None, None, false);
    let trace = machine.trace();
    // one record per executed iteration
    assert_eq!(trace.len(), 6);
    assert_eq!(trace[0].step, 0);
    assert_eq!(trace[0].state, 0);
    assert_eq!(trace[0].pos, 0);
    assert_eq!(trace[0].cells, vec![0]);
    // the head never leaves the stored window
    for rec in trace {
        assert!(rec.pos <= rec.cells.len());
    }
}

#[test]
fn test_run_bb_halting() {
    let res = run_bb("1RB 1LB 1LA 1RH", vec![], 100, None, false, vec![]).unwrap();
    assert_eq!(res.prog, "1RB 1LB 1LA 1RH");
    assert_eq!(res.undfnd, None);
    assert_eq!(res.linrec, None);
    assert_eq!(res.qsihlt, None);
    assert_eq!(res.blanks, None);
    assert_eq!(res.xlimit, None);
}

#[test]
fn test_run_bb_outcomes() {
    let rec = run_bb("1RB 1RH 0RC 1LB 1LA 0RB", vec![], 100, Some(0), false, vec![]).unwrap();
    assert_eq!(rec.linrec, Some(10));

    let qh = run_bb("1RB 1RC 1LC 1RA 1RA 1LA", vec![], 100, Some(0), false, vec![]).unwrap();
    assert_eq!(qh.qsihlt, Some(2));

    let blank = run_bb("1RB 0RA 0LB 0LC 1RD 1LC 1RA 1LB", vec![], 3, None, true, vec![]).unwrap();
    assert_eq!(blank.blanks, Some(3));

    let undef = run_bb("1RB ...  1LA 1RH", vec![], 100, None, false, vec![]).unwrap();
    assert_eq!(undef.undfnd, Some((3, "A1".to_string())));

    let lim = run_bb("1RB 1RH 0RC 1LB 1LA 0RB", vec![], 5, None, false, vec![]).unwrap();
    assert_eq!(lim.xlimit, Some(5));

    assert!(run_bb("not a program", vec![], 5, None, false, vec![]).is_err());
}

#[test]
fn test_run_bb_large_budgets() {
    // a multi-billion step budget is accepted; the champion still halts at 6
    let big = run_bb("1RB 1LB 1LA 1RH", vec![], 10_000_000_000, None, false, vec![]).unwrap();
    assert_eq!(big.xlimit, None);
    assert_eq!(big.undfnd, None);

    // only budgets beyond the machine limit are refused
    let too_big = run_bb("1RB 1LB 1LA 1RH", vec![], usize::MAX, None, false, vec![]);
    assert!(too_big.is_err());
}
