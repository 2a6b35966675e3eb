//! The recurrence / quasihalt detector: a store of snapshots keyed by
//! `(state, read symbol)`, and the window comparison that decides whether a
//! past snapshot witnesses a space-time cycle.
//!
//! The bucket search exists twice with one contract: a sequential walk, and
//! a fan-out over the bucket through `rayon`.

use vstd::prelude::*;

use rayon::iter::{IndexedParallelIterator, IntoParallelRefIterator, ParallelIterator};

use crate::machine::{Halt, HaltReason};
use crate::model::{
    bound_cap, detect_reason, lemma_seq_int_max_bounded, lemma_seq_int_max_ge,
    lemma_seq_int_min_bounded, lemma_seq_int_min_le, lemma_witness_unique, seq_int_max,
    seq_int_min, snap_matches, snap_wf, spec_detect, witness_at, DetectCtx, HaltView, SnapView,
};
use crate::tape::{blank_read, window_seq, Tape};

verus! {

/// A snapshot of the run at one past step with the current action: the step,
/// the origin, the head deviation, and deep copies of tape and beeps.
#[derive(Debug, Clone)]
pub struct Snapshot {
    pub step: usize,
    pub init: usize,
    pub dev: i64,
    pub tape: Tape,
    pub beeps: Vec<Option<usize>>,
}

impl View for Snapshot {
    type V = SnapView;

    open spec fn view(&self) -> SnapView {
        SnapView {
            step: self.step as int,
            init: self.init as int,
            dev: self.dev as int,
            tape: self.tape@,
            beeps: beeps_view(self.beeps@),
        }
    }
}

/// The deviation history as the model sees it.
pub open spec fn devs_view(d: Seq<i64>) -> Seq<int> {
    Seq::new(d.len(), |i: int| d[i] as int)
}

/// The beeps map as the model sees it.
pub open spec fn beeps_view(b: Seq<Option<usize>>) -> Seq<Option<int>> {
    Seq::new(
        b.len(),
        |i: int|
            match b[i] {
                None => None,
                Some(v) => Some(v as int),
            },
    )
}

/// One snapshot bucket as the model sees it.
pub open spec fn items_view(v: Seq<Snapshot>) -> Seq<SnapView> {
    Seq::new(v.len(), |j: int| v[j]@)
}

/// The whole snapshot store as the model sees it.
pub open spec fn snaps_view(s: Seq<Vec<Snapshot>>) -> Seq<Seq<SnapView>> {
    Seq::new(s.len(), |a: int| items_view(s[a]@))
}

/// The context of one detector call is in range for history length `k` and
/// starting tape length `t0`: every window endpoint the comparison computes
/// then stays far from the signed 64-bit limits.
pub open spec fn ctx_ok(c: DetectCtx, k: int, t0: int) -> bool {
    &&& 0 <= k
    &&& 0 <= t0
    &&& t0 + 2 * k + 4 <= bound_cap()
    &&& c.devs.len() == k + 1
    &&& c.devs[k] == c.dev
    &&& forall|j: int| 0 <= j < c.devs.len() ==> -(t0 + k + 1) <= #[trigger] c.devs[j] <= t0 + 2 * (
    k + 1)
    &&& 0 <= c.init <= t0 + k
    &&& 0 <= c.init + c.dev
    &&& c.dev <= c.tape.len()
    &&& c.tape.len() <= t0 + 2 * k
}

/// What one window comparison relies on, with the history length and the
/// starting tape length abstracted away.
pub open spec fn match_pre(sv: SnapView, c: DetectCtx) -> bool {
    exists|k: int, t0: int| ctx_ok(c, k, t0) && snap_wf(sv, c.devs, k, t0)
}

/// A sound bucket: every snapshot in range, steps strictly increasing.
pub open spec fn bucket_ok(items: Seq<SnapView>, devs: Seq<int>, k: int, t0: int) -> bool {
    &&& forall|j: int| 0 <= j < items.len() ==> snap_wf(#[trigger] items[j], devs, k, t0)
    &&& forall|j1: int, j2: int|
        0 <= j1 < j2 < items.len() ==> (#[trigger] items[j1]).step < (#[trigger] items[j2]).step
}

/// What one bucket search relies on.
pub open spec fn bucket_pre(items: Seq<SnapView>, c: DetectCtx) -> bool {
    exists|k: int, t0: int| ctx_ok(c, k, t0) && bucket_ok(items, c.devs, k, t0)
}

/// The largest head deviation since iteration `from`. The deviation of the
/// current iteration is pushed before any detector call, so the suffix a
/// snapshot asks about is never empty.
fn max_deviations(devs: &Vec<i64>, from: usize) -> (r: i64)
    requires
        from < devs@.len(),
    ensures
        r as int == seq_int_max(devs_view(devs@).subrange(from as int, devs@.len() as int)),
{
    let ghost sub = devs_view(devs@).subrange(from as int, devs@.len() as int);
    let n = devs.len();
    let mut m: i64 = devs[from];
    let mut i: usize = from + 1;
    proof {
        assert(sub.take(1) =~= seq![devs@[from as int] as int]);
    }
    while i < n
        invariant
            from < i <= n,
            n == devs@.len(),
            sub == devs_view(devs@).subrange(from as int, devs@.len() as int),
            m as int == seq_int_max(sub.take(i - from)),
        decreases n - i,
    {
        proof {
            assert(sub.take(i - from + 1).drop_last() =~= sub.take(i - from));
            assert(sub.take(i - from + 1).last() == devs@[i as int] as int);
        }
        if devs[i] > m {
            m = devs[i];
        }
        i = i + 1;
    }
    proof {
        assert(sub.take(sub.len() as int) =~= sub);
    }
    m
}

/// The smallest head deviation since iteration `from`. The deviation of the
/// current iteration is pushed before any detector call, so the suffix a
/// snapshot asks about is never empty.
fn min_deviations(devs: &Vec<i64>, from: usize) -> (r: i64)
    requires
        from < devs@.len(),
    ensures
        r as int == seq_int_min(devs_view(devs@).subrange(from as int, devs@.len() as int)),
{
    let ghost sub = devs_view(devs@).subrange(from as int, devs@.len() as int);
    let n = devs.len();
    let mut m: i64 = devs[from];
    let mut i: usize = from + 1;
    proof {
        assert(sub.take(1) =~= seq![devs@[from as int] as int]);
    }
    while i < n
        invariant
            from < i <= n,
            n == devs@.len(),
            sub == devs_view(devs@).subrange(from as int, devs@.len() as int),
            m as int == seq_int_min(sub.take(i - from)),
        decreases n - i,
    {
        proof {
            assert(sub.take(i - from + 1).drop_last() =~= sub.take(i - from));
            assert(sub.take(i - from + 1).last() == devs@[i as int] as int);
        }
        if devs[i] < m {
            m = devs[i];
        }
        i = i + 1;
    }
    proof {
        assert(sub.take(sub.len() as int) =~= sub);
    }
    m
}

/// Element-wise equality after padding the shorter vector with blanks on the
/// left.
fn eq_lpad(a: &Vec<u8>, b: &Vec<u8>) -> (r: bool)
    ensures
        r == crate::model::lpad_eq(a@, b@),
{
    let m: usize = if a.len() >= b.len() {
        a.len()
    } else {
        b.len()
    };
    let mut i: usize = 0;
    while i < m
        invariant
            i <= m,
            m == (if a@.len() >= b@.len() {
                a@.len()
            } else {
                b@.len()
            }),
            forall|j: int|
                0 <= j < i ==> crate::model::lpad_get(a@, m as int, j) == crate::model::lpad_get(
                    b@,
                    m as int,
                    j,
                ),
        decreases m - i,
    {
        let av: u8 = if i < m - a.len() {
            0
        } else {
            a[i - (m - a.len())]
        };
        let bv: u8 = if i < m - b.len() {
            0
        } else {
            b[i - (m - b.len())]
        };
        if av != bv {
            proof {
                assert(av == crate::model::lpad_get(a@, m as int, i as int));
                assert(bv == crate::model::lpad_get(b@, m as int, i as int));
                assert(!crate::model::lpad_eq(a@, b@)) by {
                    assert(crate::model::pad_width(a@, b@) == m as int);
                    assert(crate::model::lpad_get(a@, crate::model::pad_width(a@, b@), i as int)
                        != crate::model::lpad_get(b@, crate::model::pad_width(a@, b@), i as int));
                }
            }
            return false;
        }
        i = i + 1;
    }
    proof {
        assert(crate::model::lpad_eq(a@, b@));
    }
    true
}

/// Element-wise equality after padding the shorter vector with blanks on the
/// right.
fn eq_rpad(a: &Vec<u8>, b: &Vec<u8>) -> (r: bool)
    ensures
        r == crate::model::rpad_eq(a@, b@),
{
    let m: usize = if a.len() >= b.len() {
        a.len()
    } else {
        b.len()
    };
    let mut i: usize = 0;
    while i < m
        invariant
            i <= m,
            m == (if a@.len() >= b@.len() {
                a@.len()
            } else {
                b@.len()
            }),
            forall|j: int|
                0 <= j < i ==> crate::model::rpad_get(a@, j) == crate::model::rpad_get(b@, j),
        decreases m - i,
    {
        let av: u8 = if i < a.len() {
            a[i]
        } else {
            0
        };
        let bv: u8 = if i < b.len() {
            b[i]
        } else {
            0
        };
        if av != bv {
            proof {
                assert(av == crate::model::rpad_get(a@, i as int));
                assert(bv == crate::model::rpad_get(b@, i as int));
                assert(!crate::model::rpad_eq(a@, b@)) by {
                    assert(crate::model::pad_width(a@, b@) == m as int);
                    assert(crate::model::rpad_get(a@, i as int) != crate::model::rpad_get(
                        b@,
                        i as int,
                    ));
                }
            }
            return false;
        }
        i = i + 1;
    }
    proof {
        assert(crate::model::rpad_eq(a@, b@));
    }
    true
}

/// Plain element-wise equality of two symbol vectors.
fn vec_eq_u8(a: &Vec<u8>, b: &Vec<u8>) -> (r: bool)
    ensures
        r == (a@ == b@),
{
    if a.len() != b.len() {
        proof {
            assert(a@ != b@) by {
                assert(a@.len() != b@.len());
            }
        }
        return false;
    }
    let mut i: usize = 0;
    while i < a.len()
        invariant
            i <= a@.len(),
            a@.len() == b@.len(),
            forall|j: int| 0 <= j < i ==> a@[j] == b@[j],
        decreases a@.len() - i,
    {
        if a[i] != b[i] {
            return false;
        }
        i = i + 1;
    }
    proof {
        assert(a@ =~= b@);
    }
    true
}

/// Whether a past snapshot witnesses a cycle against the current
/// configuration: compares the prefix, suffix or closed excursion window of
/// the two tapes, shifted by the head drift and padded with blanks.
fn snapshot_matches(snap: &Snapshot, tape: &Tape, init: usize, dev: i64, devs: &Vec<i64>) -> (r:
    bool)
    requires
        match_pre(
            snap@,
            DetectCtx {
                tape: tape@,
                init: init as int,
                dev: dev as int,
                devs: devs_view(devs@),
            },
        ),
    ensures
        r == snap_matches(
            snap@,
            DetectCtx {
                tape: tape@,
                init: init as int,
                dev: dev as int,
                devs: devs_view(devs@),
            },
        ),
{
    let ghost c = DetectCtx {
        tape: tape@,
        init: init as int,
        dev: dev as int,
        devs: devs_view(devs@),
    };
    let ghost (k, t0): (int, int) = choose|k: int, t0: int|
        ctx_ok(c, k, t0) && snap_wf(snap@, c.devs, k, t0);
    let ghost sub = c.devs.subrange(snap@.step, c.devs.len() as int);
    proof {
        assert(forall|j: int| 0 <= j < sub.len() ==> -(t0 + k + 1) <= #[trigger] sub[j] <= t0 + 2
            * (k + 1));
        lemma_seq_int_max_bounded(sub, -(t0 + k + 1), t0 + 2 * (k + 1));
        lemma_seq_int_min_bounded(sub, -(t0 + k + 1), t0 + 2 * (k + 1));
        assert(sub[0] == snap@.dev);
        assert(sub[sub.len() - 1] == c.dev);
        lemma_seq_int_max_ge(sub, 0);
        lemma_seq_int_max_ge(sub, sub.len() - 1);
        lemma_seq_int_min_le(sub, 0);
        lemma_seq_int_min_le(sub, sub.len() - 1);
    }
    let dmin: i64 = min_deviations(devs, snap.step);
    let dmax0: i64 = max_deviations(devs, snap.step);
    let dmax: i64 = dmax0 + 1;
    proof {
        assert(sub == c.devs.subrange(snap@.step, c.devs.len() as int));
        assert(dmax as int == seq_int_max(sub) + 1);
        assert(dmin as int == seq_int_min(sub));
        assert(snap@.tape.len() <= t0 + 2 * k);
        assert(c.tape.len() <= t0 + 2 * k);
    }
    if dev < snap.dev {
        let to_prev: i64 = snap.init as i64 + dmax;
        let to_curr: i64 = init as i64 + dmax + dev - snap.dev;
        proof {
            assert(to_prev >= snap@.init + snap@.dev + 1 >= 1);
            assert(to_curr >= c.init + c.dev + 1 >= 1);
        }
        let prev = snap.tape.iter_between(0, to_prev);
        let curr = tape.iter_between(0, to_curr);
        let r = eq_lpad(&prev, &curr);
        proof {
            assert(prev@ == window_seq(snap@.tape, 0, snap@.init + (dmax as int)));
            assert(curr@ == window_seq(c.tape, 0, c.init + (dmax as int) + c.dev - snap@.dev));
        }
        r
    } else if dev > snap.dev {
        let from_prev: i64 = snap.init as i64 + dmin;
        let from_curr: i64 = init as i64 + dmin + dev - snap.dev;
        let prev = snap.tape.iter_from(from_prev);
        let curr = tape.iter_from(from_curr);
        let r = eq_rpad(&prev, &curr);
        proof {
            assert(prev@ == window_seq(snap@.tape, snap@.init + (dmin as int), snap@.tape.len() as int));
            assert(curr@ == window_seq(c.tape, c.init + (dmin as int) + c.dev - snap@.dev, c.tape.len() as int));
        }
        r
    } else {
        let prev = snap.tape.iter_between(snap.init as i64 + dmin, snap.init as i64 + dmax);
        let curr = tape.iter_between(init as i64 + dmin, init as i64 + dmax);
        let r = vec_eq_u8(&prev, &curr);
        proof {
            assert(prev@ == window_seq(snap@.tape, snap@.init + (dmin as int), snap@.init + (dmax as int)));
            assert(curr@ == window_seq(c.tape, c.init + (dmin as int), c.init + (dmax as int)));
        }
        r
    }
}

/// Walks the bucket in insertion order and returns the index of the first
/// snapshot that witnesses a cycle.
fn find_witness_idx(items: &Vec<Snapshot>, tape: &Tape, init: usize, dev: i64, devs: &Vec<i64>)
    -> (r: Option<usize>)
    requires
        bucket_pre(
            items_view(items@),
            DetectCtx {
                tape: tape@,
                init: init as int,
                dev: dev as int,
                devs: devs_view(devs@),
            },
        ),
    ensures
        ({
            let c = DetectCtx {
                tape: tape@,
                init: init as int,
                dev: dev as int,
                devs: devs_view(devs@),
            };
            match spec_detect(items_view(items@), c) {
                None => r is None,
                Some(j) => r matches Some(i) && i == j,
            }
        }),
{
    let ghost c = DetectCtx {
        tape: tape@,
        init: init as int,
        dev: dev as int,
        devs: devs_view(devs@),
    };
    let ghost iv = items_view(items@);
    let ghost (k, t0): (int, int) = choose|k: int, t0: int|
        ctx_ok(c, k, t0) && bucket_ok(iv, c.devs, k, t0);
    let mut i: usize = 0;
    while i < items.len()
        invariant
            i <= items@.len(),
            iv == items_view(items@),
            c == (DetectCtx {
                tape: tape@,
                init: init as int,
                dev: dev as int,
                devs: devs_view(devs@),
            }),
            ctx_ok(c, k, t0) && bucket_ok(iv, c.devs, k, t0),
            forall|l: int| 0 <= l < i ==> !snap_matches(#[trigger] iv[l], c),
        decreases items@.len() - i,
    {
        proof {
            assert(snap_wf(iv[i as int], c.devs, k, t0));
        }
        if snapshot_matches(&items[i], tape, init, dev, devs) {
            proof {
                assert(witness_at(iv, i as int, c));
                let j = choose|j: int| witness_at(iv, j, c);
                lemma_witness_unique(iv, j, i as int, c);
            }
            return Some(i);
        }
        i = i + 1;
    }
    proof {
        if spec_detect(iv, c) is Some {
            let j = choose|j: int| witness_at(iv, j, c);
            assert(!snap_matches(iv[j], c));
        }
    }
    None
}

/// Fans the bucket search out over `rayon` worker threads; the result equals
/// the sequential walk's.
///
/// Relies on rayon's `par_iter().enumerate().filter_map(..).min_by_key(..)`
/// chain: `min_by_key` returns an item whose key is minimal among the items
/// the closure kept, and the kept keys — the snapshots' step numbers — are
/// strictly increasing here, so the minimum is exactly the first match. The
/// closure only calls the verified `snapshot_matches` and copies fields.
#[verifier::external_body]
fn par_find_witness(items: &Vec<Snapshot>, tape: &Tape, init: usize, dev: i64, devs: &Vec<i64>)
    -> (r: Option<usize>)
    requires
        bucket_pre(
            items_view(items@),
            DetectCtx {
                tape: tape@,
                init: init as int,
                dev: dev as int,
                devs: devs_view(devs@),
            },
        ),
    ensures
        ({
            let c = DetectCtx {
                tape: tape@,
                init: init as int,
                dev: dev as int,
                devs: devs_view(devs@),
            };
            match spec_detect(items_view(items@), c) {
                None => r is None,
                Some(j) => r matches Some(i) && i == j,
            }
        }),
{
    items
        .par_iter()
        .enumerate()
        .filter_map(
            |(i, s)|
                if snapshot_matches(s, tape, init, dev, devs) {
                    Some((i, s.step))
                } else {
                    None
                },
        )
        .min_by_key(|p| p.1)
        .map(|p| p.0)
}

/// Whether every state that had beeped by the snapshot has beeped again
/// since.
fn beeps_all_again(cur: &Vec<Option<usize>>, past: &Vec<Option<usize>>) -> (r: bool)
    requires
        cur@.len() == past@.len(),
    ensures
        r == crate::model::beep_all_again(beeps_view(cur@), beeps_view(past@)),
{
    let mut i: usize = 0;
    while i < past.len()
        invariant
            i <= past@.len(),
            cur@.len() == past@.len(),
            forall|s: int|
                0 <= s < i ==> ((#[trigger] beeps_view(past@)[s]) is Some ==> (beeps_view(cur@)[s]
                    is Some && beeps_view(cur@)[s]->0 > beeps_view(past@)[s]->0)),
        decreases past@.len() - i,
    {
        match past[i] {
            None => {},
            Some(p) => {
                match cur[i] {
                    None => {
                        proof {
                            assert(beeps_view(past@)[i as int] is Some);
                            assert(beeps_view(cur@)[i as int] is None);
                        }
                        return false;
                    },
                    Some(c) => {
                        if c <= p {
                            proof {
                                assert(beeps_view(past@)[i as int] is Some);
                            }
                            return false;
                        }
                    },
                }
            },
        }
        i = i + 1;
    }
    true
}

/// A copy of the beeps map.
fn copy_beeps(v: &Vec<Option<usize>>) -> (r: Vec<Option<usize>>)
    ensures
        r@ == v@,
{
    let mut r: Vec<Option<usize>> = Vec::new();
    let mut i: usize = 0;
    while i < v.len()
        invariant
            i <= v@.len(),
            r@ =~= v@.take(i as int),
        decreases v@.len() - i,
    {
        r.push(v[i]);
        i = i + 1;
        proof {
            assert(r@ =~= v@.take(i as int));
        }
    }
    proof {
        assert(v@.take(v@.len() as int) =~= v@);
    }
    r
}

/// What both detector entry points rely on: the bucket of the current action
/// exists, is sound for this step, and its snapshots' beeps maps match the
/// current one in size.
pub open spec fn check_pre(
    tape: Seq<u8>,
    state: u8,
    symbols: u8,
    pos: int,
    step: int,
    snaps: Seq<Seq<SnapView>>,
    devs: Seq<int>,
    init: int,
    beeps: Seq<Option<int>>,
    dev: int,
) -> bool {
    let read = blank_read(tape, pos);
    let a = state * symbols + read;
    let c = DetectCtx { tape: tape, init: init, dev: dev, devs: devs };
    &&& 0 <= pos <= tape.len()
    &&& 0 <= a < snaps.len()
    &&& devs.len() == step + 1
    &&& step < usize::MAX
    &&& bucket_pre(snaps[a], c)
    &&& forall|j: int| 0 <= j < snaps[a].len() ==> (#[trigger] snaps[a][j]).step < step
    &&& forall|j: int| 0 <= j < snaps[a].len() ==> (#[trigger] snaps[a][j]).beeps.len()
        == beeps.len()
}

/// What both detector entry points guarantee: on a witnessed cycle, the halt
/// that names the cycle start and its classified reason, with the tape
/// rewound to the snapshot; otherwise no halt and a new snapshot appended
/// under the current action.
pub open spec fn check_post(
    r: Option<Halt>,
    old_tape: Seq<u8>,
    new_tape: Seq<u8>,
    state: u8,
    symbols: u8,
    pos: int,
    step: int,
    old_snaps: Seq<Seq<SnapView>>,
    new_snaps: Seq<Seq<SnapView>>,
    devs: Seq<int>,
    init: int,
    beeps: Seq<Option<int>>,
    dev: int,
) -> bool {
    let read = blank_read(old_tape, pos);
    let a = state * symbols + read;
    let c = DetectCtx { tape: old_tape, init: init, dev: dev, devs: devs };
    let items = old_snaps[a];
    match spec_detect(items, c) {
        Some(j) => {
            &&& (r matches Some(h) && h@ == (HaltView {
                steps: items[j].step,
                reason: detect_reason(beeps, items[j], step),
            }))
            &&& new_tape == items[j].tape
            &&& new_snaps == old_snaps
        },
        None => {
            &&& r is None
            &&& new_tape == old_tape
            &&& new_snaps == old_snaps.update(
                a,
                items.push(
                    SnapView { step: step, init: init, dev: dev, tape: old_tape, beeps: beeps },
                ),
            )
        },
    }
}

/// One recurrence check at iteration `step`: walks the bucket of the current
/// action for a witnessing snapshot; on a match commits the cycle start,
/// classifies it against the beeps, and rewinds the tape; otherwise stores a
/// new snapshot.
pub(crate) fn recurr_check(
    tape: &mut Tape,
    state: u8,
    symbols: u8,
    pos: usize,
    step: usize,
    snaps: &mut Vec<Vec<Snapshot>>,
    deviations: &Vec<i64>,
    init: usize,
    beeps: &Vec<Option<usize>>,
    dev: i64,
) -> (r: Option<Halt>)
    requires
        check_pre(
            old(tape)@,
            state,
            symbols,
            pos as int,
            step as int,
            snaps_view(old(snaps)@),
            devs_view(deviations@),
            init as int,
            beeps_view(beeps@),
            dev as int,
        ),
    ensures
        check_post(
            r,
            old(tape)@,
            final(tape)@,
            state,
            symbols,
            pos as int,
            step as int,
            snaps_view(old(snaps)@),
            snaps_view(final(snaps)@),
            devs_view(deviations@),
            init as int,
            beeps_view(beeps@),
            dev as int,
        ),
{
    let read = match tape.read(pos) {
        Some(s) => s,
        None => 0,
    };
    proof {
        assert((state as int) * (symbols as int) + (read as int) < 66000) by (nonlinear_arith)
            requires
                state <= 255,
                symbols <= 255,
                read <= 255,
        ;
    }
    let a: usize = (state as usize) * (symbols as usize) + (read as usize);
    proof {
        assert(read == blank_read(tape@, pos as int));
        assert(a as int == state * symbols + blank_read(old(tape)@, pos as int));
        assert(snaps_view(snaps@)[a as int] == items_view(snaps@[a as int]@));
        assert forall|j: int| 0 <= j < snaps@[a as int]@.len() implies (#[trigger] snaps@[a
            as int]@[j]).beeps@.len() == beeps@.len() by {
            assert(items_view(snaps@[a as int]@)[j] == snaps@[a as int]@[j]@);
            assert(snaps@[a as int]@[j]@.beeps.len() == beeps_view(beeps@).len());
        }
        assert forall|j: int| 0 <= j < snaps@[a as int]@.len() implies (#[trigger] snaps@[a
            as int]@[j])@.step < step by {
            assert(items_view(snaps@[a as int]@)[j] == snaps@[a as int]@[j]@);
        }
    }
    let witness = find_witness_idx(&snaps[a], tape, init, dev, deviations);
    proof {
        let c = DetectCtx {
            tape: old(tape)@,
            init: init as int,
            dev: dev as int,
            devs: devs_view(deviations@),
        };
        match witness {
            Some(j) => {
                assert(witness_at(items_view(snaps@[a as int]@), j as int, c));
            },
            None => {},
        }
    }
    commit_outcome(witness, tape, a, step, snaps, init, beeps, dev)
}

/// As [`recurr_check`], with the bucket walked in parallel; the contract is
/// the same.
pub(crate) fn par_recurr_check(
    tape: &mut Tape,
    state: u8,
    symbols: u8,
    pos: usize,
    step: usize,
    snaps: &mut Vec<Vec<Snapshot>>,
    deviations: &Vec<i64>,
    init: usize,
    beeps: &Vec<Option<usize>>,
    dev: i64,
) -> (r: Option<Halt>)
    requires
        check_pre(
            old(tape)@,
            state,
            symbols,
            pos as int,
            step as int,
            snaps_view(old(snaps)@),
            devs_view(deviations@),
            init as int,
            beeps_view(beeps@),
            dev as int,
        ),
    ensures
        check_post(
            r,
            old(tape)@,
            final(tape)@,
            state,
            symbols,
            pos as int,
            step as int,
            snaps_view(old(snaps)@),
            snaps_view(final(snaps)@),
            devs_view(deviations@),
            init as int,
            beeps_view(beeps@),
            dev as int,
        ),
{
    let read = match tape.read(pos) {
        Some(s) => s,
        None => 0,
    };
    proof {
        assert((state as int) * (symbols as int) + (read as int) < 66000) by (nonlinear_arith)
            requires
                state <= 255,
                symbols <= 255,
                read <= 255,
        ;
    }
    let a: usize = (state as usize) * (symbols as usize) + (read as usize);
    proof {
        assert(read == blank_read(tape@, pos as int));
        assert(a as int == state * symbols + blank_read(old(tape)@, pos as int));
        assert(snaps_view(snaps@)[a as int] == items_view(snaps@[a as int]@));
        assert forall|j: int| 0 <= j < snaps@[a as int]@.len() implies (#[trigger] snaps@[a
            as int]@[j]).beeps@.len() == beeps@.len() by {
            assert(items_view(snaps@[a as int]@)[j] == snaps@[a as int]@[j]@);
            assert(snaps@[a as int]@[j]@.beeps.len() == beeps_view(beeps@).len());
        }
        assert forall|j: int| 0 <= j < snaps@[a as int]@.len() implies (#[trigger] snaps@[a
            as int]@[j])@.step < step by {
            assert(items_view(snaps@[a as int]@)[j] == snaps@[a as int]@[j]@);
        }
    }
    let witness = par_find_witness(&snaps[a], tape, init, dev, deviations);
    proof {
        let c = DetectCtx {
            tape: old(tape)@,
            init: init as int,
            dev: dev as int,
            devs: devs_view(deviations@),
        };
        match witness {
            Some(j) => {
                assert(witness_at(items_view(snaps@[a as int]@), j as int, c));
            },
            None => {},
        }
    }
    commit_outcome(witness, tape, a, step, snaps, init, beeps, dev)
}

/// Turns the bucket search's outcome into the detector's: commit and rewind
/// on a witness, append a snapshot otherwise.
fn commit_outcome(
    witness: Option<usize>,
    tape: &mut Tape,
    a: usize,
    step: usize,
    snaps: &mut Vec<Vec<Snapshot>>,
    init: usize,
    beeps: &Vec<Option<usize>>,
    dev: i64,
) -> (r: Option<Halt>)
    requires
        a < old(snaps)@.len(),
        step < usize::MAX,
        forall|j: int|
            0 <= j < old(snaps)@[a as int]@.len() ==> (#[trigger] old(snaps)@[a as int]@[j])@.step
                < step,
        forall|j: int|
            0 <= j < old(snaps)@[a as int]@.len() ==> (#[trigger] old(snaps)@[a as int]@[j]).beeps@.len()
                == beeps@.len(),
        match witness {
            None => true,
            Some(j) => j < old(snaps)@[a as int]@.len(),
        },
    ensures
        ({
            let items = items_view(old(snaps)@[a as int]@);
            match witness {
                Some(j) => {
                    &&& (r matches Some(h) && h@ == (HaltView {
                        steps: items[j as int].step,
                        reason: detect_reason(beeps_view(beeps@), items[j as int], step as int),
                    }))
                    &&& final(tape)@ == items[j as int].tape
                    &&& final(snaps)@ == old(snaps)@
                },
                None => {
                    &&& r is None
                    &&& final(tape)@ == old(tape)@
                    &&& snaps_view(final(snaps)@) == snaps_view(old(snaps)@).update(
                        a as int,
                        items.push(
                            SnapView {
                                step: step as int,
                                init: init as int,
                                dev: dev as int,
                                tape: old(tape)@,
                                beeps: beeps_view(beeps@),
                            },
                        ),
                    )
                },
            }
        }),
{
    match witness {
        Some(j) => {
            let found = &snaps[a][j];
            let pstep = found.step;
            let period = step - pstep;
            let again = beeps_all_again(beeps, &found.beeps);
            let new_tape = found.tape.duplicate();
            let reason = if again {
                HaltReason::Recurr(period)
            } else {
                HaltReason::Quasihalt(period)
            };
            *tape = new_tape;
            Some(Halt { steps: pstep, reason })
        },
        None => {
            let snap_tape = tape.duplicate();
            let snap_beeps = copy_beeps(beeps);
            let ghost old_snaps = snaps@;
            let bucket = vstd::std_specs::vec::vec_index_mut(snaps, a);
            bucket.push(Snapshot { step, init, dev, tape: snap_tape, beeps: snap_beeps });
            proof {
                assert(items_view(snaps@[a as int]@) =~= items_view(old_snaps[a as int]@).push(
                    SnapView {
                        step: step as int,
                        init: init as int,
                        dev: dev as int,
                        tape: old(tape)@,
                        beeps: beeps_view(beeps@),
                    },
                ));
                assert(snaps_view(snaps@) =~= snaps_view(old_snaps).update(
                    a as int,
                    items_view(old_snaps[a as int]@).push(
                        SnapView {
                            step: step as int,
                            init: init as int,
                            dev: dev as int,
                            tape: old(tape)@,
                            beeps: beeps_view(beeps@),
                        },
                    ),
                ));
            }
            None
        },
    }
}

} // verus!
