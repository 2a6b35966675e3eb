//! The mathematical model of a program: what the executable types mean in
//! specifications.

use vstd::prelude::*;

use crate::types::Direction;

verus! {

/// A decoded transition: next state, write symbol, head direction. The next
/// state equal to the program's state count stands for the halt state.
pub type Instruction = (u8, u8, Direction);

/// A lookup key: state and read symbol.
pub type Action = (u8, u8);

/// The meaning of a program: its two alphabet sizes and its transition
/// table, row-major by state then read symbol.
#[verifier::ext_equal]
pub ghost struct ProgSpec {
    pub states: u8,
    pub symbols: u8,
    pub table: Seq<Option<Instruction>>,
}

impl ProgSpec {
    /// The table entry for `state` reading `symbol`.
    pub open spec fn entry(self, state: int, symbol: int) -> Option<Instruction> {
        self.table[state * self.symbols + symbol]
    }

    /// A sound table: supported alphabet sizes, a total table, and every
    /// transition staying inside the alphabets (the next state may be the
    /// halt state, written as `states` itself).
    pub open spec fn wf(self) -> bool {
        &&& 2 <= self.states <= 6
        &&& 2 <= self.symbols <= 4
        &&& self.table.len() == self.states * self.symbols
        &&& forall|i: int|
            0 <= i < self.table.len() ==> instr_wf(#[trigger] self.table[i], self.states, self.symbols)
    }
}

/// A transition entry staying inside the alphabets.
pub open spec fn instr_wf(o: Option<Instruction>, states: u8, symbols: u8) -> bool {
    match o {
        None => true,
        Some((st, sy, _)) => st <= states && sy < symbols,
    }
}

/// The configuration of one simulation, as the per-step loop sees it just
/// before executing iteration `k`: machine state, stored tape with head and
/// origin, the maintained mark count, the last step each state was entered
/// (its beep), the head deviation of every earlier iteration, the snapshot
/// store of the recurrence detector, the trace so far, and the committed
/// halt, if any.
#[verifier::ext_equal]
pub ghost struct RunView {
    pub state: u8,
    pub tape: Seq<u8>,
    pub pos: int,
    pub init: int,
    pub marks: int,
    pub beeps: Seq<Option<int>>,
    pub devs: Seq<int>,
    pub snaps: Seq<Seq<SnapView>>,
    pub trace: Seq<TraceView>,
    pub halt: Option<HaltView>,
}

/// A snapshot taken at iteration `step`: the origin, head deviation, tape
/// and beeps of that moment.
#[verifier::ext_equal]
pub ghost struct SnapView {
    pub step: int,
    pub init: int,
    pub dev: int,
    pub tape: Seq<u8>,
    pub beeps: Seq<Option<int>>,
}

/// One emitted trace line: the step, the state, and the tape with the head
/// position.
#[verifier::ext_equal]
pub ghost struct TraceView {
    pub step: int,
    pub state: u8,
    pub pos: int,
    pub tape: Seq<u8>,
}

/// Why and when a run stopped.
pub ghost enum ReasonView {
    Halt,
    Recurr(int),
    XLimit,
    Quasihalt(int),
    Blanking,
    Undefined(Seq<char>),
}

#[verifier::ext_equal]
pub ghost struct HaltView {
    pub steps: int,
    pub reason: ReasonView,
}

/// The descriptor of an undefined transition: state letter, then read
/// symbol digit.
pub open spec fn undef_descr(state: u8, states: u8, symbol: u8) -> Seq<char> {
    seq![crate::types::state_letter(state, states), crate::types::symbol_digit(symbol)]
}

/// The smallest element of a non-empty sequence (`0` for the empty one).
pub open spec fn seq_int_min(s: Seq<int>) -> int
    decreases s.len(),
{
    if s.len() == 0 {
        0
    } else if s.len() == 1 {
        s[0]
    } else {
        let m = seq_int_min(s.drop_last());
        if s.last() <= m {
            s.last()
        } else {
            m
        }
    }
}

/// The largest element of a non-empty sequence (`0` for the empty one).
pub open spec fn seq_int_max(s: Seq<int>) -> int
    decreases s.len(),
{
    if s.len() == 0 {
        0
    } else if s.len() == 1 {
        s[0]
    } else {
        let m = seq_int_max(s.drop_last());
        if s.last() >= m {
            s.last()
        } else {
            m
        }
    }
}

pub proof fn lemma_seq_int_min_le(s: Seq<int>, i: int)
    requires
        0 <= i < s.len(),
    ensures
        seq_int_min(s) <= s[i],
    decreases s.len(),
{
    if s.len() > 1 {
        if i < s.len() - 1 {
            lemma_seq_int_min_le(s.drop_last(), i);
        }
    }
}

pub proof fn lemma_seq_int_max_ge(s: Seq<int>, i: int)
    requires
        0 <= i < s.len(),
    ensures
        seq_int_max(s) >= s[i],
    decreases s.len(),
{
    if s.len() > 1 {
        if i < s.len() - 1 {
            lemma_seq_int_max_ge(s.drop_last(), i);
        }
    }
}

/// What the detector compares against: the current tape, origin, head
/// deviation, and the deviation history including the current step.
#[verifier::ext_equal]
pub ghost struct DetectCtx {
    pub tape: Seq<u8>,
    pub init: int,
    pub dev: int,
    pub devs: Seq<int>,
}

/// Reading a padded sequence left-aligned to width `m`: leading blanks where
/// the sequence is shorter.
pub open spec fn lpad_get(a: Seq<u8>, m: int, i: int) -> u8 {
    if i < m - a.len() {
        0
    } else {
        a[i - (m - a.len())]
    }
}

/// The width two padded sequences are compared at: the longer length.
pub open spec fn pad_width(a: Seq<u8>, b: Seq<u8>) -> int {
    if a.len() >= b.len() {
        a.len() as int
    } else {
        b.len() as int
    }
}

/// Two sequences equal once the shorter is padded with blanks on the left.
pub open spec fn lpad_eq(a: Seq<u8>, b: Seq<u8>) -> bool {
    forall|i: int|
        0 <= i < pad_width(a, b) ==> #[trigger] lpad_get(a, pad_width(a, b), i) == lpad_get(
            b,
            pad_width(a, b),
            i,
        )
}

pub open spec fn rpad_get(a: Seq<u8>, i: int) -> u8 {
    if i < a.len() {
        a[i]
    } else {
        0
    }
}

/// Two sequences equal once the shorter is padded with blanks on the right.
pub open spec fn rpad_eq(a: Seq<u8>, b: Seq<u8>) -> bool {
    forall|i: int| 0 <= i < pad_width(a, b) ==> #[trigger] rpad_get(a, i) == rpad_get(b, i)
}

/// Whether a past snapshot witnesses a space-time cycle against the current
/// configuration: the tape windows that the head could have influenced since
/// the snapshot agree, after shifting by the drift `dev - sv.dev` and
/// widening to the head's excursion range over the interval.
pub open spec fn snap_matches(sv: SnapView, c: DetectCtx) -> bool {
    let dsuf = c.devs.subrange(sv.step, c.devs.len() as int);
    let dmax = seq_int_max(dsuf) + 1;
    let dmin = seq_int_min(dsuf);
    if c.dev < sv.dev {
        lpad_eq(
            crate::tape::window_seq(sv.tape, 0, sv.init + dmax),
            crate::tape::window_seq(c.tape, 0, c.init + dmax + c.dev - sv.dev),
        )
    } else if c.dev > sv.dev {
        rpad_eq(
            crate::tape::window_seq(sv.tape, sv.init + dmin, sv.tape.len() as int),
            crate::tape::window_seq(c.tape, c.init + dmin + c.dev - sv.dev, c.tape.len() as int),
        )
    } else {
        crate::tape::window_seq(sv.tape, sv.init + dmin, sv.init + dmax) == crate::tape::window_seq(
            c.tape,
            c.init + dmin,
            c.init + dmax,
        )
    }
}

/// `j` is the first snapshot of the bucket that witnesses a cycle.
pub open spec fn witness_at(items: Seq<SnapView>, j: int, c: DetectCtx) -> bool {
    &&& 0 <= j < items.len()
    &&& snap_matches(items[j], c)
    &&& forall|l: int| 0 <= l < j ==> !snap_matches(#[trigger] items[l], c)
}

/// The index of the earliest witnessing snapshot of the bucket, if any.
pub open spec fn spec_detect(items: Seq<SnapView>, c: DetectCtx) -> Option<int> {
    if exists|j: int| witness_at(items, j, c) {
        Some(choose|j: int| witness_at(items, j, c))
    } else {
        None
    }
}

/// The detector commits the earliest matching snapshot: the committed index
/// matches, and no snapshot stored before it does.
pub proof fn lemma_detect_earliest(items: Seq<SnapView>, c: DetectCtx)
    ensures
        spec_detect(items, c) matches Some(j) ==> witness_at(items, j, c),
        spec_detect(items, c) is None ==> forall|j: int|
            0 <= j < items.len() ==> !snap_matches(#[trigger] items[j], c),
    decreases items.len(),
{
    if spec_detect(items, c) is None {
        assert forall|j: int| 0 <= j < items.len() implies !snap_matches(
            #[trigger] items[j],
            c,
        ) by {
            if snap_matches(items[j], c) {
                lemma_least_match(items, c, j);
                assert(witness_at(items, least_match(items, c, j), c));
            }
        }
    }
}

/// The first matching index at or before a known match.
spec fn least_match(items: Seq<SnapView>, c: DetectCtx, j: int) -> int
    decreases j,
{
    if exists|l: int| 0 <= l < j && snap_matches(#[trigger] items[l], c) {
        least_match(items, c, choose|l: int| 0 <= l < j && snap_matches(#[trigger] items[l], c))
    } else {
        j
    }
}

proof fn lemma_least_match(items: Seq<SnapView>, c: DetectCtx, j: int)
    requires
        0 <= j < items.len(),
        snap_matches(items[j], c),
    ensures
        witness_at(items, least_match(items, c, j), c),
    decreases j,
{
    if exists|l: int| 0 <= l < j && snap_matches(#[trigger] items[l], c) {
        let l = choose|l: int| 0 <= l < j && snap_matches(#[trigger] items[l], c);
        lemma_least_match(items, c, l);
    }
}

pub proof fn lemma_witness_unique(items: Seq<SnapView>, j1: int, j2: int, c: DetectCtx)
    requires
        witness_at(items, j1, c),
        witness_at(items, j2, c),
    ensures
        j1 == j2,
{
    if j1 < j2 {
        assert(!snap_matches(items[j1], c));
    }
    if j2 < j1 {
        assert(!snap_matches(items[j2], c));
    }
}

/// Every state that had beeped by the snapshot has beeped again since.
pub open spec fn beep_all_again(cur: Seq<Option<int>>, past: Seq<Option<int>>) -> bool {
    forall|s: int|
        0 <= s < past.len() ==> ((#[trigger] past[s]) is Some ==> (cur[s] is Some && cur[s]->0
            > past[s]->0))
}

/// The verdict on a witnessed cycle: a true recurrence when every previously
/// beeping state beeped again, a quasihalt otherwise. The period is the
/// distance from the snapshot to the detection step.
pub open spec fn detect_reason(cur_beeps: Seq<Option<int>>, sv: SnapView, k: int) -> ReasonView {
    if beep_all_again(cur_beeps, sv.beeps) {
        ReasonView::Recurr(k - sv.step)
    } else {
        ReasonView::Quasihalt(k - sv.step)
    }
}

/// The tape after overwriting the cell under the head; a head just past the
/// stored window appends.
pub open spec fn tape_after_write(tape: Seq<u8>, pos: int, sym: u8) -> Seq<u8> {
    if pos < tape.len() {
        tape.update(pos, sym)
    } else {
        tape.push(sym)
    }
}

/// The tape, head and origin after the head moves; moving left at the edge
/// prepends a blank and shifts the origin.
pub open spec fn conf_after_move(tape: Seq<u8>, pos: int, init: int, dir: Direction) -> (
    Seq<u8>,
    int,
    int,
) {
    match dir {
        Direction::Left => if pos == 0 {
            (seq![0u8] + tape, 0, init + 1)
        } else {
            (tape, pos - 1, init)
        },
        Direction::Right => (tape, pos + 1, init),
    }
}

/// One iteration of the run loop at step `k`, in the engine's order: trace,
/// record the deviation, recurrence check (committing the cycle start and
/// rewinding the tape on a match, appending a snapshot otherwise), beep,
/// execute the transition, then the blanking and halt checks.
pub open spec fn iter_body(
    p: ProgSpec,
    chk_rec: Option<usize>,
    chk_blank: Option<usize>,
    trace_on: bool,
    s: RunView,
    k: int,
) -> RunView {
    if s.halt is Some {
        s
    } else {
        let s1 = if trace_on {
            RunView {
                trace: s.trace.push(
                    TraceView { step: k, state: s.state, pos: s.pos, tape: s.tape },
                ),
                ..s
            }
        } else {
            s
        };
        let dev = s1.pos - s1.init;
        let s2 = RunView { devs: s1.devs.push(dev), ..s1 };
        let read = crate::tape::blank_read(s2.tape, s2.pos);
        let a = s2.state * p.symbols + read;
        let c = DetectCtx { tape: s2.tape, init: s2.init, dev: dev, devs: s2.devs };
        let run_detector = chk_rec is Some && k >= chk_rec->0;
        if run_detector && spec_detect(s2.snaps[a], c) is Some {
            let sv = s2.snaps[a][spec_detect(s2.snaps[a], c)->Some_0];
            RunView {
                tape: sv.tape,
                halt: Some(
                    HaltView { steps: sv.step, reason: detect_reason(s2.beeps, sv, k) },
                ),
                ..s2
            }
        } else {
            let s3 = if run_detector {
                RunView {
                    snaps: s2.snaps.update(
                        a,
                        s2.snaps[a].push(
                            SnapView {
                                step: k,
                                init: s2.init,
                                dev: dev,
                                tape: s2.tape,
                                beeps: s2.beeps,
                            },
                        ),
                    ),
                    ..s2
                }
            } else {
                s2
            };
            let s4 = RunView { beeps: s3.beeps.update(s3.state as int, Some(k)), ..s3 };
            match p.entry(s4.state as int, read as int) {
                None => RunView {
                    halt: Some(
                        HaltView {
                            steps: k + 1,
                            reason: ReasonView::Undefined(undef_descr(s4.state, p.states, read)),
                        },
                    ),
                    ..s4
                },
                Some((ns, ws, dir)) => {
                    let t1 = tape_after_write(s4.tape, s4.pos, ws);
                    let moved = conf_after_move(t1, s4.pos, s4.init, dir);
                    let marks2 = s4.marks + (if ws != 0 {
                        1int
                    } else {
                        0int
                    }) - (if read != 0 {
                        1int
                    } else {
                        0int
                    });
                    let s5 = RunView {
                        state: ns,
                        tape: moved.0,
                        pos: moved.1,
                        init: moved.2,
                        marks: marks2,
                        ..s4
                    };
                    let s6 = if chk_blank is Some && chk_blank->0 <= k && s5.marks == 0 {
                        RunView {
                            halt: Some(HaltView { steps: k + 1, reason: ReasonView::Blanking }),
                            ..s5
                        }
                    } else {
                        s5
                    };
                    if s6.halt is None && ns == p.states {
                        RunView {
                            halt: Some(HaltView { steps: k + 1, reason: ReasonView::Halt }),
                            ..s6
                        }
                    } else {
                        s6
                    }
                },
            }
        }
    }
}

/// The configuration before iteration `k`: `k` iterations of the body from
/// the starting configuration.
pub open spec fn run_iter(
    p: ProgSpec,
    chk_rec: Option<usize>,
    chk_blank: Option<usize>,
    trace_on: bool,
    s0: RunView,
    k: nat,
) -> RunView
    decreases k,
{
    if k == 0 {
        s0
    } else {
        iter_body(
            p,
            chk_rec,
            chk_blank,
            trace_on,
            run_iter(p, chk_rec, chk_blank, trace_on, s0, (k - 1) as nat),
            k - 1,
        )
    }
}

/// The starting configuration of a run: head and origin at the middle of the
/// stored tape, the mark count recounted, no beeps, no history.
pub open spec fn start_view(p: ProgSpec, state0: u8, tape0: Seq<u8>) -> RunView {
    RunView {
        state: state0,
        tape: tape0,
        pos: tape0.len() as int / 2,
        init: tape0.len() as int / 2,
        marks: crate::tape::marks_count(tape0) as int,
        beeps: Seq::new(p.states as nat, |i: int| None),
        devs: Seq::empty(),
        snaps: Seq::new((p.states * p.symbols) as nat, |i: int| Seq::empty()),
        trace: Seq::empty(),
        halt: None,
    }
}

/// The tape after the input symbols are written at the left edge.
pub open spec fn tape_with_input(t: Seq<u8>, input: Seq<u8>) -> Seq<u8> {
    Seq::new(
        if t.len() >= input.len() {
            t.len()
        } else {
            input.len()
        },
        |i: int|
            if i < input.len() {
                input[i]
            } else {
                t[i]
            },
    )
}

/// The configuration a whole run ends in: iterations `0 ..= limit`, with the
/// step budget exhausted committed as `XLimit` when nothing else halted.
pub open spec fn run_result(
    p: ProgSpec,
    state0: u8,
    tape0: Seq<u8>,
    limit: usize,
    chk_rec: Option<usize>,
    chk_blank: Option<usize>,
    trace_on: bool,
) -> RunView {
    let fin = run_iter(
        p,
        chk_rec,
        chk_blank,
        trace_on,
        start_view(p, state0, tape0),
        (limit + 1) as nat,
    );
    if fin.halt is None {
        RunView {
            halt: Some(HaltView { steps: limit as int, reason: ReasonView::XLimit }),
            ..fin
        }
    } else {
        fin
    }
}

/// Once the body has committed a halt, every later iteration leaves the
/// configuration unchanged.
pub proof fn lemma_halt_frozen(
    p: ProgSpec,
    chk_rec: Option<usize>,
    chk_blank: Option<usize>,
    trace_on: bool,
    s0: RunView,
    k1: nat,
    k2: nat,
)
    requires
        k1 <= k2,
        run_iter(p, chk_rec, chk_blank, trace_on, s0, k1).halt is Some,
    ensures
        run_iter(p, chk_rec, chk_blank, trace_on, s0, k2) == run_iter(
            p,
            chk_rec,
            chk_blank,
            trace_on,
            s0,
            k1,
        ),
    decreases k2,
{
    if k2 > k1 {
        lemma_halt_frozen(p, chk_rec, chk_blank, trace_on, s0, k1, (k2 - 1) as nat);
    }
}

/// The origin never decreases across an iteration, whatever the step does.
pub proof fn lemma_body_init_monotonic(
    p: ProgSpec,
    chk_rec: Option<usize>,
    chk_blank: Option<usize>,
    trace_on: bool,
    s: RunView,
    k: int,
)
    ensures
        iter_body(p, chk_rec, chk_blank, trace_on, s, k).init >= s.init,
{
}

/// The origin never decreases over a whole run.
pub proof fn lemma_run_init_monotonic(
    p: ProgSpec,
    chk_rec: Option<usize>,
    chk_blank: Option<usize>,
    trace_on: bool,
    s0: RunView,
    k1: nat,
    k2: nat,
)
    requires
        k1 <= k2,
    ensures
        run_iter(p, chk_rec, chk_blank, trace_on, s0, k2).init >= run_iter(
            p,
            chk_rec,
            chk_blank,
            trace_on,
            s0,
            k1,
        ).init,
    decreases k2,
{
    if k2 > k1 {
        lemma_run_init_monotonic(p, chk_rec, chk_blank, trace_on, s0, k1, (k2 - 1) as nat);
        lemma_body_init_monotonic(
            p,
            chk_rec,
            chk_blank,
            trace_on,
            run_iter(p, chk_rec, chk_blank, trace_on, s0, (k2 - 1) as nat),
            k2 - 1,
        );
    }
}

/// The magnitude every tape length, origin and deviation of a run stays
/// under, so that the detector's signed 64-bit window arithmetic cannot
/// overflow: window endpoints are sums of at most four such magnitudes.
pub open spec fn bound_cap() -> int {
    0x1000_0000_0000_0000
}

/// The machine limit a run must respect: the step budget and the starting
/// tape must leave every derived quantity under [`bound_cap`] and every
/// count and index inside the machine word.
pub open spec fn run_bounds_ok(t0: int, lim: int) -> bool {
    &&& 0 <= t0
    &&& 0 <= lim
    &&& t0 + 2 * lim + 4 <= bound_cap()
    &&& t0 + 2 * lim + 4 <= usize::MAX
}

/// A sound snapshot at history length `k`: taken at an earlier iteration,
/// linked to the deviation history, with its origin and head in range.
pub open spec fn snap_wf(sv: SnapView, devs: Seq<int>, k: int, t0: int) -> bool {
    &&& 0 <= sv.step < k
    &&& sv.step < devs.len()
    &&& devs[sv.step] == sv.dev
    &&& 0 <= sv.init <= t0 + k
    &&& 0 <= sv.init + sv.dev
    &&& sv.dev <= sv.tape.len()
    &&& sv.tape.len() <= t0 + 2 * k
}

/// The largest element of a sequence within known bounds stays within them.
pub proof fn lemma_seq_int_max_bounded(s: Seq<int>, lo: int, hi: int)
    requires
        s.len() > 0,
        forall|i: int| 0 <= i < s.len() ==> lo <= #[trigger] s[i] <= hi,
    ensures
        lo <= seq_int_max(s) <= hi,
    decreases s.len(),
{
    if s.len() > 1 {
        lemma_seq_int_max_bounded(s.drop_last(), lo, hi);
    }
}

/// The smallest element of a sequence within known bounds stays within them.
pub proof fn lemma_seq_int_min_bounded(s: Seq<int>, lo: int, hi: int)
    requires
        s.len() > 0,
        forall|i: int| 0 <= i < s.len() ==> lo <= #[trigger] s[i] <= hi,
    ensures
        lo <= seq_int_min(s) <= hi,
    decreases s.len(),
{
    if s.len() > 1 {
        lemma_seq_int_min_bounded(s.drop_last(), lo, hi);
    }
}

/// The loop invariant of a run before iteration `k`, for a starting tape of
/// length `t0`: once a halt is committed the configuration is frozen;
/// until then the machine state, head, tape, counters and histories are all
/// in range and consistent with one another.
pub open spec fn rv_wf(p: ProgSpec, s: RunView, k: int, t0: int) -> bool {
    s.halt is Some || {
        &&& s.state < p.states
        &&& 0 <= s.pos <= s.tape.len()
        &&& s.tape.len() <= t0 + 2 * k
        &&& 0 <= s.init <= t0 + k
        &&& forall|i: int| 0 <= i < s.tape.len() ==> s.tape[i] < p.symbols
        &&& s.marks == crate::tape::marks_count(s.tape)
        &&& s.beeps.len() == p.states
        &&& forall|j: int|
            0 <= j < s.beeps.len() ==> ((#[trigger] s.beeps[j]) is Some ==> 0 <= s.beeps[j]->0
                < k)
        &&& s.devs.len() == k
        &&& forall|j: int| 0 <= j < s.devs.len() ==> -(t0 + k) <= #[trigger] s.devs[j] <= t0 + 2 * k
        &&& s.snaps.len() == p.states * p.symbols
        &&& forall|a: int, j: int|
            0 <= a < s.snaps.len() && 0 <= j < s.snaps[a].len() ==> snap_wf(
                #[trigger] s.snaps[a][j],
                s.devs,
                k,
                t0,
            ) && s.snaps[a][j].beeps.len() == p.states
        &&& forall|a: int, j1: int, j2: int|
            0 <= a < s.snaps.len() && 0 <= j1 < j2 < s.snaps[a].len() ==> (
            #[trigger] s.snaps[a][j1]).step < (#[trigger] s.snaps[a][j2]).step
    }
}

/// The starting configuration is well formed.
pub proof fn lemma_start_wf(p: ProgSpec, state0: u8, tape0: Seq<u8>)
    requires
        p.wf(),
        state0 < p.states,
        forall|i: int| 0 <= i < tape0.len() ==> tape0[i] < p.symbols,
    ensures
        rv_wf(p, start_view(p, state0, tape0), 0, tape0.len() as int),
{
}

/// One iteration of the body keeps the run invariant.
pub proof fn lemma_body_wf(
    p: ProgSpec,
    chk_rec: Option<usize>,
    chk_blank: Option<usize>,
    trace_on: bool,
    s: RunView,
    k: int,
    t0: int,
)
    requires
        p.wf(),
        0 <= k,
        0 <= t0,
        rv_wf(p, s, k, t0),
    ensures
        rv_wf(p, iter_body(p, chk_rec, chk_blank, trace_on, s, k), k + 1, t0),
{
    if s.halt is Some {
        return ;
    }
    let s1 = if trace_on {
        RunView {
            trace: s.trace.push(TraceView { step: k, state: s.state, pos: s.pos, tape: s.tape }),
            ..s
        }
    } else {
        s
    };
    let dev = s1.pos - s1.init;
    let s2 = RunView { devs: s1.devs.push(dev), ..s1 };
    let read = crate::tape::blank_read(s2.tape, s2.pos);
    let a = s2.state * p.symbols + read;
    let c = DetectCtx { tape: s2.tape, init: s2.init, dev: dev, devs: s2.devs };
    let run_detector = chk_rec is Some && k >= chk_rec->0;
    assert(read < p.symbols);
    assert(0 <= a < p.states * p.symbols) by (nonlinear_arith)
        requires
            a == s2.state * p.symbols + read,
            s2.state < p.states,
            read < p.symbols,
            p.symbols > 0,
    ;
    assert(forall|j: int| 0 <= j < s2.devs.len() ==> -(t0 + k + 1) <= #[trigger] s2.devs[j] <= t0
        + 2 * (k + 1));
    if run_detector && spec_detect(s2.snaps[a], c) is Some {
        // a halt is committed; the configuration is frozen
    } else {
        let s3 = if run_detector {
            RunView {
                snaps: s2.snaps.update(
                    a,
                    s2.snaps[a].push(
                        SnapView {
                            step: k,
                            init: s2.init,
                            dev: dev,
                            tape: s2.tape,
                            beeps: s2.beeps,
                        },
                    ),
                ),
                ..s2
            }
        } else {
            s2
        };
        assert(forall|a2: int, j: int|
            0 <= a2 < s3.snaps.len() && 0 <= j < s3.snaps[a2].len() ==> snap_wf(
                #[trigger] s3.snaps[a2][j],
                s3.devs,
                k + 1,
                t0,
            ) && s3.snaps[a2][j].beeps.len() == p.states);
        assert(forall|a2: int, j1: int, j2: int|
            0 <= a2 < s3.snaps.len() && 0 <= j1 < j2 < s3.snaps[a2].len() ==> (
            #[trigger] s3.snaps[a2][j1]).step < (#[trigger] s3.snaps[a2][j2]).step);
        let s4 = RunView { beeps: s3.beeps.update(s3.state as int, Some(k)), ..s3 };
        match p.entry(s4.state as int, read as int) {
            None => {},
            Some((ns, ws, dir)) => {
                assert(instr_wf(p.table[a], p.states, p.symbols));
                let t1 = tape_after_write(s4.tape, s4.pos, ws);
                let moved = conf_after_move(t1, s4.pos, s4.init, dir);
                assert(s4.marks + (if ws != 0 {
                    1int
                } else {
                    0int
                }) - (if read != 0 {
                    1int
                } else {
                    0int
                }) == crate::tape::marks_count(t1)) by {
                    if s4.pos < s4.tape.len() {
                        crate::tape::lemma_marks_count_update(s4.tape, s4.pos, ws);
                    } else {
                        crate::tape::lemma_marks_count_push(s4.tape, ws);
                    }
                }
                assert(crate::tape::marks_count(moved.0) == crate::tape::marks_count(t1)) by {
                    match dir {
                        Direction::Left => {
                            if s4.pos == 0 {
                                crate::tape::lemma_marks_count_prepend_zero(t1);
                            }
                        },
                        Direction::Right => {},
                    }
                }
            },
        }
    }
}

/// Every configuration a run passes through is well formed.
pub proof fn lemma_run_iter_wf(
    p: ProgSpec,
    chk_rec: Option<usize>,
    chk_blank: Option<usize>,
    trace_on: bool,
    state0: u8,
    tape0: Seq<u8>,
    k: nat,
)
    requires
        p.wf(),
        state0 < p.states,
        forall|i: int| 0 <= i < tape0.len() ==> tape0[i] < p.symbols,
    ensures
        rv_wf(
            p,
            run_iter(p, chk_rec, chk_blank, trace_on, start_view(p, state0, tape0), k),
            k as int,
            tape0.len() as int,
        ),
    decreases k,
{
    if k == 0 {
        lemma_start_wf(p, state0, tape0);
    } else {
        lemma_run_iter_wf(p, chk_rec, chk_blank, trace_on, state0, tape0, (k - 1) as nat);
        lemma_body_wf(
            p,
            chk_rec,
            chk_blank,
            trace_on,
            run_iter(p, chk_rec, chk_blank, trace_on, start_view(p, state0, tape0), (k - 1) as nat),
            k - 1,
            tape0.len() as int,
        );
    }
}


/// A tape after a sequence of write operations, each an asked position and a
/// symbol, applied left to right.
pub open spec fn apply_writes(t: Seq<u8>, ops: Seq<(int, u8)>) -> Seq<u8>
    decreases ops.len(),
{
    if ops.len() == 0 {
        t
    } else {
        tape_after_write(apply_writes(t, ops.drop_last()), ops.last().0, ops.last().1)
    }
}

/// Every write of the sequence lands inside the stored window or appends
/// right at its end, so each write touches exactly the position it asks for.
pub open spec fn writes_ok(t: Seq<u8>, ops: Seq<(int, u8)>) -> bool
    decreases ops.len(),
{
    if ops.len() == 0 {
        true
    } else {
        writes_ok(t, ops.drop_last()) && 0 <= ops.last().0 <= apply_writes(
            t,
            ops.drop_last(),
        ).len()
    }
}

/// Blank extension law: over any sequence of writes, a position that no
/// write touches keeps reading the blank symbol.
pub proof fn lemma_blank_extension(t: Seq<u8>, ops: Seq<(int, u8)>, pos: int)
    requires
        writes_ok(t, ops),
        forall|i: int| 0 <= i < ops.len() ==> (#[trigger] ops[i]).0 != pos,
        crate::tape::blank_read(t, pos) == 0,
    ensures
        crate::tape::blank_read(apply_writes(t, ops), pos) == 0,
    decreases ops.len(),
{
    if ops.len() > 0 {
        lemma_blank_extension(t, ops.drop_last(), pos);
        assert(ops[ops.len() - 1].0 != pos);
    }
}

/// Mark accuracy law: at every iteration a run reaches without halting, the
/// maintained mark counter equals a recount of the whole tape.
pub proof fn lemma_run_marks_accurate(
    p: ProgSpec,
    chk_rec: Option<usize>,
    chk_blank: Option<usize>,
    trace_on: bool,
    state0: u8,
    tape0: Seq<u8>,
    k: nat,
)
    requires
        p.wf(),
        state0 < p.states,
        forall|i: int| 0 <= i < tape0.len() ==> tape0[i] < p.symbols,
    ensures
        ({
            let s = run_iter(p, chk_rec, chk_blank, trace_on, start_view(p, state0, tape0), k);
            s.halt is None ==> s.marks == crate::tape::marks_count(s.tape)
        }),
{
    lemma_run_iter_wf(p, chk_rec, chk_blank, trace_on, state0, tape0, k);
}

/// Head range law: at every iteration a run reaches without halting, the
/// head stands at a non-negative position inside or just past the stored
/// window.
pub proof fn lemma_run_head_in_range(
    p: ProgSpec,
    chk_rec: Option<usize>,
    chk_blank: Option<usize>,
    trace_on: bool,
    state0: u8,
    tape0: Seq<u8>,
    k: nat,
)
    requires
        p.wf(),
        state0 < p.states,
        forall|i: int| 0 <= i < tape0.len() ==> tape0[i] < p.symbols,
    ensures
        ({
            let s = run_iter(p, chk_rec, chk_blank, trace_on, start_view(p, state0, tape0), k);
            s.halt is None ==> 0 <= s.pos <= s.tape.len()
        }),
{
    lemma_run_iter_wf(p, chk_rec, chk_blank, trace_on, state0, tape0, k);
}

/// Quasihalt refinement law: a witnessed cycle is classified as a true
/// recurrence exactly when every state that had beeped by the cycle start
/// beeped again afterwards; otherwise some such state stayed quiet and the
/// verdict is a quasihalt.
pub proof fn lemma_quasihalt_refinement(cur: Seq<Option<int>>, sv: SnapView, k: int)
    ensures
        detect_reason(cur, sv, k) is Recurr <==> beep_all_again(cur, sv.beeps),
        detect_reason(cur, sv, k) is Quasihalt <==> (exists|s: int|
            0 <= s < sv.beeps.len() && (#[trigger] sv.beeps[s]) is Some && !(cur[s] is Some
                && cur[s]->0 > sv.beeps[s]->0)),
{
    if !beep_all_again(cur, sv.beeps) {
        let s = choose|s: int|
            !(0 <= s < sv.beeps.len() ==> ((#[trigger] sv.beeps[s]) is Some ==> (cur[s] is Some
                && cur[s]->0 > sv.beeps[s]->0)));
        assert(0 <= s < sv.beeps.len() && sv.beeps[s] is Some && !(cur[s] is Some && cur[s]->0
            > sv.beeps[s]->0));
    }
}

} // verus!