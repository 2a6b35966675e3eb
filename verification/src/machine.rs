//! The step engine: a machine owns a program, a tape with head and halt
//! cell, and runs until a terminal condition commits a [`Halt`].

use vstd::prelude::*;
use vstd::string::*;

use crate::checks::{
    beeps_view, bucket_ok, check_pre, ctx_ok, devs_view, items_view, par_recurr_check,
    recurr_check, snaps_view, Snapshot,
};
use crate::model::{
    conf_after_move, iter_body, lemma_body_wf, lemma_halt_frozen, run_bounds_ok, run_iter,
    run_result, rv_wf, snap_wf, start_view, tape_after_write, tape_with_input, undef_descr,
    DetectCtx, HaltView, ProgSpec, ReasonView, RunView, SnapView, TraceView,
};
use crate::program::Program;
use crate::tape::{blank_read, lemma_marks_count_le, lemma_marks_count_pos, marks_count, Tape};
use crate::types::Direction;

verus! {

/// Why a run stopped: a proper halt, a detected Lin–Rado recurrence or
/// quasihalt with its period, the step budget, a blanked tape, or an
/// undefined transition with its `<state><symbol>` descriptor.
#[derive(Debug, PartialEq, Clone)]
pub enum HaltReason {
    Halt,
    Recurr(usize),
    XLimit,
    Quasihalt(usize),
    Blanking,
    Undefined(String),
}

impl View for HaltReason {
    type V = ReasonView;

    open spec fn view(&self) -> ReasonView {
        match self {
            HaltReason::Halt => ReasonView::Halt,
            HaltReason::Recurr(p) => ReasonView::Recurr(*p as int),
            HaltReason::XLimit => ReasonView::XLimit,
            HaltReason::Quasihalt(p) => ReasonView::Quasihalt(*p as int),
            HaltReason::Blanking => ReasonView::Blanking,
            HaltReason::Undefined(d) => ReasonView::Undefined(d@),
        }
    }
}

/// A committed terminal condition: after how many steps, and why.
#[derive(Debug, PartialEq, Clone)]
pub struct Halt {
    pub steps: usize,
    pub reason: HaltReason,
}

impl View for Halt {
    type V = HaltView;

    open spec fn view(&self) -> HaltView {
        HaltView { steps: self.steps as int, reason: self.reason@ }
    }
}

impl Halt {
    pub fn new(steps: usize, reason: HaltReason) -> (r: Halt)
        ensures
            r.steps == steps,
            r.reason == reason,
    {
        Halt { steps, reason }
    }

    /// Whether the machine halted properly.
    pub fn is_halted(&self) -> (r: bool)
        ensures
            r == (self@.reason is Halt),
    {
        match self.reason {
            HaltReason::Halt => true,
            _ => false,
        }
    }

    /// Whether a Lin–Rado recurrence was detected.
    pub fn is_lr_recurrence(&self) -> (r: bool)
        ensures
            r == (self@.reason is Recurr),
    {
        match self.reason {
            HaltReason::Recurr(_) => true,
            _ => false,
        }
    }

    /// Whether the step budget ran out.
    pub fn is_limit(&self) -> (r: bool)
        ensures
            r == (self@.reason is XLimit),
    {
        match self.reason {
            HaltReason::XLimit => true,
            _ => false,
        }
    }
}

/// One trace line's data: the step, the state, and the tape with the head.
#[derive(Debug, Clone, PartialEq)]
pub struct TraceRecord {
    pub step: usize,
    pub state: u8,
    pub pos: usize,
    pub cells: Vec<u8>,
}

impl View for TraceRecord {
    type V = TraceView;

    open spec fn view(&self) -> TraceView {
        TraceView {
            step: self.step as int,
            state: self.state,
            pos: self.pos as int,
            tape: self.cells@,
        }
    }
}

/// What a [`Machine`] means: its program, configuration, committed halt and
/// collected trace.
pub ghost struct MachView {
    pub prog: ProgSpec,
    pub state: u8,
    pub pos: int,
    pub tape: Seq<u8>,
    pub halt: Option<HaltView>,
    pub trace_on: bool,
    pub trace: Seq<TraceView>,
}

/// A machine ready to run one simulation: the program, the state, the head
/// position, the tape, and the halt committed by a finished run.
#[derive(Debug)]
pub struct Machine {
    prog: Program,
    state: u8,
    pos: usize,
    tape: Tape,
    halt: Option<Halt>,
    trace_on: bool,
    trace: Vec<TraceRecord>,
}

impl View for Machine {
    type V = MachView;

    closed spec fn view(&self) -> MachView {
        MachView {
            prog: self.prog@,
            state: self.state,
            pos: self.pos as int,
            tape: self.tape@,
            halt: match self.halt {
                None => None,
                Some(h) => Some(h@),
            },
            trace_on: self.trace_on,
            trace: Seq::new(self.trace@.len(), |i: int| self.trace@[i]@),
        }
    }
}

/// The printable descriptor of an undefined transition, state letter then
/// read symbol digit.
fn undefined_descriptor(state: u8, states: u8, symbol: u8) -> (r: String)
    requires
        state < states <= 6,
        symbol < 4,
    ensures
        r@ == undef_descr(state, states, symbol),
{
    let r = match (state, symbol) {
        (0, 0) => String::from_str("A0"),
        (0, 1) => String::from_str("A1"),
        (0, 2) => String::from_str("A2"),
        (0, 3) => String::from_str("A3"),
        (1, 0) => String::from_str("B0"),
        (1, 1) => String::from_str("B1"),
        (1, 2) => String::from_str("B2"),
        (1, 3) => String::from_str("B3"),
        (2, 0) => String::from_str("C0"),
        (2, 1) => String::from_str("C1"),
        (2, 2) => String::from_str("C2"),
        (2, 3) => String::from_str("C3"),
        (3, 0) => String::from_str("D0"),
        (3, 1) => String::from_str("D1"),
        (3, 2) => String::from_str("D2"),
        (3, 3) => String::from_str("D3"),
        (4, 0) => String::from_str("E0"),
        (4, 1) => String::from_str("E1"),
        (4, 2) => String::from_str("E2"),
        (4, 3) => String::from_str("E3"),
        (5, 0) => String::from_str("F0"),
        (5, 1) => String::from_str("F1"),
        (5, 2) => String::from_str("F2"),
        _ => String::from_str("F3"),
    };
    proof {
        reveal_strlit("A0");
        reveal_strlit("A1");
        reveal_strlit("A2");
        reveal_strlit("A3");
        reveal_strlit("B0");
        reveal_strlit("B1");
        reveal_strlit("B2");
        reveal_strlit("B3");
        reveal_strlit("C0");
        reveal_strlit("C1");
        reveal_strlit("C2");
        reveal_strlit("C3");
        reveal_strlit("D0");
        reveal_strlit("D1");
        reveal_strlit("D2");
        reveal_strlit("D3");
        reveal_strlit("E0");
        reveal_strlit("E1");
        reveal_strlit("E2");
        reveal_strlit("E3");
        reveal_strlit("F0");
        reveal_strlit("F1");
        reveal_strlit("F2");
        reveal_strlit("F3");
        assert(r@ =~= undef_descr(state, states, symbol));
    }
    r
}

impl Machine {
    /// A fresh machine on a blank tape, in the initial state.
    pub fn new(prog: Program) -> (r: Machine)
        ensures
            r@.prog == prog@,
            r@.state == 0,
            r@.pos == 0,
            r@.tape =~= seq![0u8],
            r@.halt is None,
            r@.trace_on == false,
            r@.trace =~= Seq::<TraceView>::empty(),
    {
        Machine {
            prog,
            state: 0,
            pos: 0,
            tape: Tape::default(),
            halt: None,
            trace_on: false,
            trace: Vec::new(),
        }
    }

    /// Recounts the marked (non-blank) cells of the tape.
    pub fn marks(&self) -> (r: usize)
        ensures
            r == marks_count(self@.tape),
    {
        self.tape.marks()
    }

    /// The committed halt of a finished run.
    pub fn halt(&self) -> (r: Option<&Halt>)
        ensures
            match r {
                None => self@.halt is None,
                Some(h) => self@.halt == Some(h@),
            },
    {
        self.halt.as_ref()
    }

    /// The tape as the run left it (rewound to the cycle start after a
    /// detected recurrence).
    pub fn tape(&self) -> (r: &Tape)
        ensures
            r@ == self@.tape,
    {
        &self.tape
    }

    /// The current state.
    pub fn state(&self) -> (r: u8)
        ensures
            r == self@.state,
    {
        self.state
    }

    /// Switches per-step trace collection on or off.
    pub fn set_trace(&mut self, on: bool)
        ensures
            final(self)@ == (MachView { trace_on: on, ..old(self)@ }),
    {
        self.trace_on = on;
    }

    /// The collected trace lines.
    pub fn trace(&self) -> (r: &Vec<TraceRecord>)
        ensures
            r@.len() == self@.trace.len(),
            forall|i: int| 0 <= i < r@.len() ==> (#[trigger] r@[i])@ == self@.trace[i],
    {
        &self.trace
    }

    /// The symbol under the head, blank outside the stored window.
    fn read_symbol(&self) -> (r: u8)
        ensures
            r == blank_read(self@.tape, self@.pos),
    {
        match self.tape.read(self.pos) {
            Some(s) => s,
            None => 0,
        }
    }

    /// Writes the input symbols at the left edge of the tape.
    fn input_to_tape(&mut self, input: Vec<u8>)
        ensures
            final(self)@ == (MachView {
                tape: tape_with_input(old(self)@.tape, input@),
                ..old(self)@
            }),
    {
        let ghost t = self@.tape;
        proof {
            assert(tape_with_input(t, input@.take(0)) =~= t);
        }
        let mut i: usize = 0;
        while i < input.len()
            invariant
                i <= input@.len(),
                self@ == (MachView { tape: tape_with_input(t, input@.take(i as int)), ..old(self)@ }),
            decreases input@.len() - i,
        {
            self.tape.write(i, input[i]);
            i = i + 1;
            proof {
                assert(self@.tape =~= tape_with_input(t, input@.take(i as int)));
            }
        }
        proof {
            assert(input@.take(input@.len() as int) =~= input@);
        }
    }

    /// Reads the cell under the head, looks the transition up, and if it is
    /// defined commits it: adjusts the mark counter, writes, moves, shifting
    /// the origin on a left move at the edge. Returns whether the transition
    /// was defined; on an undefined one nothing changes.
    fn run_turing_step(&mut self, init: &mut usize, marks: &mut usize) -> (r: bool)
        requires
            old(self)@.prog.wf(),
            old(self)@.halt is None,
            old(self)@.state < old(self)@.prog.states,
            0 <= old(self)@.pos <= old(self)@.tape.len(),
            forall|i: int|
                0 <= i < old(self)@.tape.len() ==> old(self)@.tape[i] < old(self)@.prog.symbols,
            *old(marks) == marks_count(old(self)@.tape),
            old(self)@.tape.len() + 2 < usize::MAX,
            *old(init) + 1 < usize::MAX,
        ensures
            r == (old(self)@.prog.entry(
                old(self)@.state as int,
                blank_read(old(self)@.tape, old(self)@.pos) as int,
            ) is Some),
            !r ==> final(self)@ == old(self)@ && *final(init) == *old(init) && *final(marks)
                == *old(marks),
            r ==> ({
                let read = blank_read(old(self)@.tape, old(self)@.pos);
                let (ns, ws, dir) = old(self)@.prog.entry(
                    old(self)@.state as int,
                    read as int,
                )->Some_0;
                let t1 = tape_after_write(old(self)@.tape, old(self)@.pos, ws);
                let moved = conf_after_move(t1, old(self)@.pos, *old(init) as int, dir);
                &&& final(self)@ == MachView {
                    state: ns,
                    tape: moved.0,
                    pos: moved.1,
                    ..old(self)@
                }
                &&& *final(init) == moved.2
                &&& *final(marks) == *old(marks) + (if ws != 0 {
                    1int
                } else {
                    0int
                }) - (if read != 0 {
                    1int
                } else {
                    0int
                })
            }),
            // the delta rule keeps the counter an exact recount of the tape
            r ==> *final(marks) == marks_count(final(self)@.tape),
            // the origin never decreases and the head index stays non-negative
            *final(init) >= *old(init),
            final(self)@.pos >= 0,
    {
        let read_symbol = self.read_symbol();
        let instr = self.prog.instruction(self.state, read_symbol);
        match instr {
            None => false,
            Some((new_state, symbol, direction)) => {
                self.state = new_state;
                if read_symbol == 0 && symbol != 0 {
                    proof {
                        lemma_marks_count_le(self@.tape);
                    }
                    *marks = *marks + 1;
                } else if read_symbol != 0 && symbol == 0 {
                    proof {
                        lemma_marks_count_pos(self@.tape, self@.pos);
                    }
                    *marks = *marks - 1;
                }
                self.tape.write(self.pos, symbol);
                match direction {
                    Direction::Left => {
                        if self.pos == 0 {
                            *init = *init + 1;
                            self.tape.insert();
                        } else {
                            self.pos = self.pos - 1;
                        }
                    },
                    Direction::Right => {
                        self.pos = self.pos + 1;
                    },
                }
                proof {
                    let t0 = old(self)@.tape;
                    let p0 = old(self)@.pos;
                    if p0 < t0.len() {
                        crate::tape::lemma_marks_count_update(t0, p0, symbol);
                    } else {
                        crate::tape::lemma_marks_count_push(t0, symbol);
                    }
                    let t1 = tape_after_write(t0, p0, symbol);
                    if self@.tape != t1 {
                        crate::tape::lemma_marks_count_prepend_zero(t1);
                    }
                }
                true
            },
        }
    }

    /// Runs the machine to a terminal condition: writes the input, seats the
    /// head at the middle of the stored tape, and executes iterations
    /// `0 ..= limit` of the step loop — trace, deviation record, recurrence
    /// check (when enabled and past its threshold), beep, transition,
    /// blanking check, halt check — committing `XLimit` when the budget runs
    /// out. The committed halt, final tape, state and head equal those of
    /// the mathematical run [`run_result`]; the `parallel` flag selects the
    /// parallel bucket search and does not appear in that model, so it
    /// cannot change the outcome.
    #[verifier::rlimit(60)]
    pub fn run_until_halt(
        &mut self,
        input: Vec<u8>,
        limit: usize,
        check_recurrence: Option<usize>,
        check_blank: Option<usize>,
        parallel: bool,
    )
        requires
            old(self)@.prog.wf(),
            old(self)@.halt is None,
            old(self)@.state < old(self)@.prog.states,
            forall|i: int|
                0 <= i < old(self)@.tape.len() ==> old(self)@.tape[i] < old(self)@.prog.symbols,
            forall|i: int| 0 <= i < input@.len() ==> input@[i] < old(self)@.prog.symbols,
            run_bounds_ok(old(self)@.tape.len() + input@.len() as int, limit as int),
        ensures
            ({
                let rr = run_result(
                    old(self)@.prog,
                    old(self)@.state,
                    tape_with_input(old(self)@.tape, input@),
                    limit,
                    check_recurrence,
                    check_blank,
                    old(self)@.trace_on,
                );
                &&& final(self)@.prog == old(self)@.prog
                &&& final(self)@.trace_on == old(self)@.trace_on
                &&& final(self)@.halt == rr.halt
                &&& final(self)@.halt is Some
                &&& final(self)@.tape == rr.tape
                &&& final(self)@.state == rr.state
                &&& final(self)@.pos == rr.pos
                &&& final(self)@.trace == old(self)@.trace + rr.trace
            }),
    {
        let ghost p = old(self)@.prog;
        let ghost state0 = old(self)@.state;
        let ghost trace_on = old(self)@.trace_on;
        let ghost trace_before = old(self)@.trace;
        self.input_to_tape(input);
        let ghost tape1 = self@.tape;
        let ghost t0 = tape1.len() as int;
        let half = self.tape.size() / 2;
        let mut init: usize = half;
        self.pos = half;
        let mut marks: usize = self.tape.marks();
        let n: u8 = self.prog.states();
        let symbols: u8 = self.prog.symbols();
        let mut beeps: Vec<Option<usize>> = Vec::new();
        let mut bi: usize = 0;
        while bi < n as usize
            invariant
                bi <= n,
                beeps@.len() == bi,
                forall|j: int| 0 <= j < bi ==> beeps@[j] is None,
            decreases n - bi,
        {
            beeps.push(None);
            bi = bi + 1;
        }
        let mut deviations: Vec<i64> = Vec::new();
        let mut snaps: Vec<Vec<Snapshot>> = Vec::new();
        proof {
            assert((n as int) * (symbols as int) <= 24) by (nonlinear_arith)
                requires
                    n <= 6,
                    symbols <= 4,
            ;
        }
        let nbuckets: usize = (n as usize) * (symbols as usize);
        let mut si: usize = 0;
        while si < nbuckets
            invariant
                si <= nbuckets,
                snaps@.len() == si,
                forall|j: int| 0 <= j < si ==> (#[trigger] snaps@[j])@.len() == 0,
            decreases nbuckets - si,
        {
            snaps.push(Vec::new());
            si = si + 1;
        }
        let ghost s0 = start_view(p, state0, tape1);
        let ghost mut rv = s0;
        proof {
            assert(beeps_view(beeps@) =~= s0.beeps);
            assert(snaps_view(snaps@) =~~= s0.snaps) by {
                assert(snaps@.len() == (p.states * p.symbols) as nat);
                assert forall|j: int| 0 <= j < snaps@.len() implies snaps_view(snaps@)[j]
                    =~= s0.snaps[j] by {
                    assert(items_view(snaps@[j]@).len() == 0);
                }
            }
            assert(devs_view(deviations@) =~= s0.devs);
            assert(self@.trace == trace_before + s0.trace) by {
                assert(trace_before + Seq::<TraceView>::empty() =~= trace_before);
            }
            assert(forall|i: int| 0 <= i < tape1.len() ==> tape1[i] < p.symbols);
            crate::model::lemma_start_wf(p, state0, tape1);
        }
        let mut step: usize = 0;
        loop
            invariant_except_break
                rv == run_iter(p, check_recurrence, check_blank, trace_on, s0, step as nat),
                rv.halt is None,
                rv_wf(p, rv, step as int, t0),
                self@.halt is None,
                self@.state == rv.state,
                self@.pos == rv.pos,
                self@.tape == rv.tape,
                init as int == rv.init,
                marks as int == rv.marks,
                beeps_view(beeps@) == rv.beeps,
                check_recurrence is Some ==> devs_view(deviations@) == rv.devs,
                check_recurrence is Some ==> snaps_view(snaps@) == rv.snaps,
                self@.trace == trace_before + rv.trace,
            invariant
                self@.prog == p,
                self@.trace_on == trace_on,
                p.wf(),
                0 <= t0,
                t0 + 2 * (limit as int) + 4 <= crate::model::bound_cap(),
                t0 + 2 * (limit as int) + 4 <= usize::MAX,
                n == p.states,
                symbols == p.symbols,
                step <= limit + 1,
            ensures
                ({
                    let fin = run_iter(
                        p,
                        check_recurrence,
                        check_blank,
                        trace_on,
                        s0,
                        (limit + 1) as nat,
                    );
                    &&& self@.prog == p
                    &&& self@.trace_on == trace_on
                    &&& self@.state == fin.state
                    &&& self@.pos == fin.pos
                    &&& self@.tape == fin.tape
                    &&& self@.halt == fin.halt
                    &&& self@.trace == trace_before + fin.trace
                }),
            decreases limit + 1 - step,
        {
            if step > limit {
                proof {
                    assert(step == limit + 1);
                    assert(rv == run_iter(
                        p,
                        check_recurrence,
                        check_blank,
                        trace_on,
                        s0,
                        (limit + 1) as nat,
                    ));
                }
                break ;
            }
            let ghost k = step as int;
            let ghost rv_next = iter_body(p, check_recurrence, check_blank, trace_on, rv, k);
            proof {
                lemma_body_wf(p, check_recurrence, check_blank, trace_on, rv, k, t0);
                assert(rv_next == run_iter(
                    p,
                    check_recurrence,
                    check_blank,
                    trace_on,
                    s0,
                    (step + 1) as nat,
                ));
            }
            let ghost s1 = if trace_on {
                RunView {
                    trace: rv.trace.push(
                        TraceView { step: k, state: rv.state, pos: rv.pos, tape: rv.tape },
                    ),
                    ..rv
                }
            } else {
                rv
            };
            if self.trace_on {
                let ghost prev_trace = self@.trace;
                let cells = self.tape.iter();
                let rec = TraceRecord { step, state: self.state, pos: self.pos, cells };
                self.trace.push(rec);
                proof {
                    assert(self@.trace =~= prev_trace.push(
                        TraceView { step: k, state: rv.state, pos: rv.pos, tape: rv.tape },
                    ));
                    assert(self@.trace =~= trace_before + s1.trace) by {
                        assert(trace_before + rv.trace.push(
                            TraceView { step: k, state: rv.state, pos: rv.pos, tape: rv.tape },
                        ) =~= (trace_before + rv.trace).push(
                            TraceView { step: k, state: rv.state, pos: rv.pos, tape: rv.tape },
                        ));
                    }
                }
            }
            let st = self.state;
            let ps = self.pos;
            let dev: i64 = (ps as i64) - (init as i64);
            let ghost s2 = RunView { devs: s1.devs.push(dev as int), ..s1 };
            if check_recurrence.is_some() {
                deviations.push(dev);
                proof {
                    assert(devs_view(deviations@) =~= s2.devs);
                }
            }
            let ghost read_g = blank_read(rv.tape, rv.pos);
            let ghost a_g = rv.state * p.symbols + read_g;
            let ghost c = DetectCtx {
                tape: s2.tape,
                init: s2.init,
                dev: dev as int,
                devs: s2.devs,
            };
            let run_det = match check_recurrence {
                Some(th) => step >= th,
                None => false,
            };
            proof {
                assert(run_det == (check_recurrence is Some && k >= check_recurrence->0));
            }
            if run_det {
                proof {
                    assert(read_g < p.symbols);
                    assert(0 <= a_g < p.states * p.symbols) by (nonlinear_arith)
                        requires
                            a_g == rv.state * p.symbols + read_g,
                            rv.state < p.states,
                            read_g < p.symbols,
                            p.symbols > 0,
                    ;
                    assert(ctx_ok(c, k, t0));
                    assert(bucket_ok(rv.snaps[a_g], c.devs, k, t0)) by {
                        assert forall|j: int| 0 <= j < rv.snaps[a_g].len() implies snap_wf(
                            #[trigger] rv.snaps[a_g][j],
                            c.devs,
                            k,
                            t0,
                        ) by {
                            assert(snap_wf(rv.snaps[a_g][j], rv.devs, k, t0));
                            assert(c.devs[rv.snaps[a_g][j].step] == rv.devs[rv.snaps[a_g][j].step]);
                        }
                    }
                    assert(check_pre(
                        rv.tape,
                        st,
                        symbols,
                        ps as int,
                        k,
                        snaps_view(snaps@),
                        devs_view(deviations@),
                        init as int,
                        beeps_view(beeps@),
                        dev as int,
                    )) by {
                        assert(snaps_view(snaps@)[a_g] == rv.snaps[a_g]);
                        assert(crate::checks::bucket_pre(rv.snaps[a_g], c));
                    }
                }
                let r = if parallel {
                    par_recurr_check(
                        &mut self.tape,
                        st,
                        symbols,
                        ps,
                        step,
                        &mut snaps,
                        &deviations,
                        init,
                        &beeps,
                        dev,
                    )
                } else {
                    recurr_check(
                        &mut self.tape,
                        st,
                        symbols,
                        ps,
                        step,
                        &mut snaps,
                        &deviations,
                        init,
                        &beeps,
                        dev,
                    )
                };
                match r {
                    Some(h) => {
                        self.halt = Some(h);
                        proof {
                            let j = crate::model::spec_detect(rv.snaps[a_g], c)->Some_0;
                            let sv = rv.snaps[a_g][j];
                            assert(rv_next == (RunView {
                                tape: sv.tape,
                                halt: Some(
                                    HaltView {
                                        steps: sv.step,
                                        reason: crate::model::detect_reason(s2.beeps, sv, k),
                                    },
                                ),
                                ..s2
                            }));
                            assert(self@.halt == rv_next.halt);
                            assert(self@.tape == rv_next.tape);
                            assert(self@.state == rv_next.state);
                            assert(self@.pos == rv_next.pos);
                            assert(self@.trace == trace_before + rv_next.trace);
                            lemma_halt_frozen(
                                p,
                                check_recurrence,
                                check_blank,
                                trace_on,
                                s0,
                                (step + 1) as nat,
                                (limit + 1) as nat,
                            );
                            assert(run_iter(
                                p,
                                check_recurrence,
                                check_blank,
                                trace_on,
                                s0,
                                (limit + 1) as nat,
                            ) == rv_next);
                        }
                        break ;
                    },
                    None => {
                        proof {
                            assert(crate::model::spec_detect(rv.snaps[a_g], c) is None);
                        }
                    },
                }
            }
            let ghost s3 = if run_det {
                RunView {
                    snaps: s2.snaps.update(
                        a_g,
                        s2.snaps[a_g].push(
                            SnapView {
                                step: k,
                                init: s2.init,
                                dev: dev as int,
                                tape: s2.tape,
                                beeps: s2.beeps,
                            },
                        ),
                    ),
                    ..s2
                }
            } else {
                s2
            };
            proof {
                if run_det {
                    assert(snaps_view(snaps@) == s3.snaps);
                }
            }
            let ghost s4 = RunView { beeps: s3.beeps.update(s3.state as int, Some(k)), ..s3 };
            beeps.set(self.state as usize, Some(step));
            proof {
                assert(beeps_view(beeps@) =~= s4.beeps);
            }
            let stepped = self.run_turing_step(&mut init, &mut marks);
            if !stepped {
                let read = self.read_symbol();
                let descr = undefined_descriptor(self.state, n, read);
                self.halt = Some(Halt { steps: step + 1, reason: HaltReason::Undefined(descr) });
                proof {
                    assert(rv_next == (RunView {
                        halt: Some(
                            HaltView {
                                steps: k + 1,
                                reason: ReasonView::Undefined(undef_descr(s4.state, p.states, read_g)),
                            },
                        ),
                        ..s4
                    }));
                    assert(self@.halt == rv_next.halt);
                    assert(self@.state == rv_next.state);
                    assert(self@.pos == rv_next.pos);
                    assert(self@.tape == rv_next.tape);
                    assert(self@.trace == trace_before + rv_next.trace);
                    lemma_halt_frozen(
                        p,
                        check_recurrence,
                        check_blank,
                        trace_on,
                        s0,
                        (step + 1) as nat,
                        (limit + 1) as nat,
                    );
                    assert(run_iter(
                        p,
                        check_recurrence,
                        check_blank,
                        trace_on,
                        s0,
                        (limit + 1) as nat,
                    ) == rv_next);
                }
                break ;
            }
            let ghost trans = p.entry(s4.state as int, read_g as int)->Some_0;
            let ghost t1 = tape_after_write(s4.tape, s4.pos, trans.1);
            let ghost moved = conf_after_move(t1, s4.pos, s4.init, trans.2);
            let ghost s5 = RunView {
                state: trans.0,
                tape: moved.0,
                pos: moved.1,
                init: moved.2,
                marks: s4.marks + (if trans.1 != 0 {
                    1int
                } else {
                    0int
                }) - (if read_g != 0 {
                    1int
                } else {
                    0int
                }),
                ..s4
            };
            proof {
                assert(self@.state == s5.state);
                assert(self@.tape == s5.tape);
                assert(self@.pos == s5.pos);
                assert(init as int == s5.init);
                assert(marks as int == s5.marks);
            }
            let blank_hit = match check_blank {
                Some(b) => b <= step && marks == 0,
                None => false,
            };
            if blank_hit {
                self.halt = Some(Halt { steps: step + 1, reason: HaltReason::Blanking });
                proof {
                    assert(rv_next == (RunView {
                        halt: Some(HaltView { steps: k + 1, reason: ReasonView::Blanking }),
                        ..s5
                    }));
                    assert(self@.halt == rv_next.halt);
                    assert(self@.state == rv_next.state);
                    assert(self@.pos == rv_next.pos);
                    assert(self@.tape == rv_next.tape);
                    assert(self@.trace == trace_before + rv_next.trace);
                    lemma_halt_frozen(
                        p,
                        check_recurrence,
                        check_blank,
                        trace_on,
                        s0,
                        (step + 1) as nat,
                        (limit + 1) as nat,
                    );
                    assert(run_iter(
                        p,
                        check_recurrence,
                        check_blank,
                        trace_on,
                        s0,
                        (limit + 1) as nat,
                    ) == rv_next);
                }
                break ;
            }
            if self.state == n {
                self.halt = Some(Halt { steps: step + 1, reason: HaltReason::Halt });
                proof {
                    assert(rv_next == (RunView {
                        halt: Some(HaltView { steps: k + 1, reason: ReasonView::Halt }),
                        ..s5
                    }));
                    assert(self@.halt == rv_next.halt);
                    assert(self@.state == rv_next.state);
                    assert(self@.pos == rv_next.pos);
                    assert(self@.tape == rv_next.tape);
                    assert(self@.trace == trace_before + rv_next.trace);
                    lemma_halt_frozen(
                        p,
                        check_recurrence,
                        check_blank,
                        trace_on,
                        s0,
                        (step + 1) as nat,
                        (limit + 1) as nat,
                    );
                    assert(run_iter(
                        p,
                        check_recurrence,
                        check_blank,
                        trace_on,
                        s0,
                        (limit + 1) as nat,
                    ) == rv_next);
                }
                break ;
            }
            proof {
                assert(rv_next == s5);
                rv = rv_next;
            }
            step = step + 1;
        }
        if self.halt.is_none() {
            self.halt = Some(Halt { steps: limit, reason: HaltReason::XLimit });
        }
        proof {
            let fin = run_iter(p, check_recurrence, check_blank, trace_on, s0, (limit + 1) as nat);
            let rr = run_result(p, state0, tape1, limit, check_recurrence, check_blank, trace_on);
            if fin.halt is None {
                assert(self@.halt == rr.halt);
            } else {
                assert(self@.halt == rr.halt);
            }
        }
    }
}

} // verus!
