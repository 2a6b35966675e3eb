//! The machine tape: a finite stored window of a conceptually two-way
//! infinite tape whose unstored cells all hold the blank symbol `0`.
//!
//! Two representations are offered. [`Tape`] is a dense vector indexed from
//! the left edge of the stored window; the head position is kept by the
//! caller, and the window grows leftwards by prepending a blank. [`SSTape`]
//! is the classic two-stack split with an explicit centre cell under the
//! head; it implements the [`ITape`] interface.

use vstd::prelude::*;

use crate::types::Direction;

verus! {

/// Reading the conceptual tape at position `i`: the stored cell inside the
/// window, the blank outside it.
pub open spec fn blank_read(cells: Seq<u8>, i: int) -> u8 {
    if 0 <= i < cells.len() {
        cells[i]
    } else {
        0
    }
}

/// The cells of the conceptual tape over the index window `[lo, hi)`,
/// blank-padded where the window leaves the stored range.
pub open spec fn window_seq(cells: Seq<u8>, lo: int, hi: int) -> Seq<u8> {
    Seq::new(
        if lo <= hi {
            (hi - lo) as nat
        } else {
            0
        },
        |j: int| blank_read(cells, lo + j),
    )
}

/// How many stored cells are not blank.
pub open spec fn marks_count(s: Seq<u8>) -> nat
    decreases s.len(),
{
    if s.len() == 0 {
        0
    } else {
        marks_count(s.drop_last()) + (if s.last() == 0 {
            0nat
        } else {
            1nat
        })
    }
}

pub proof fn lemma_marks_count_le(s: Seq<u8>)
    ensures
        marks_count(s) <= s.len(),
    decreases s.len(),
{
    if s.len() > 0 {
        lemma_marks_count_le(s.drop_last());
    }
}

/// A tape with a marked cell has a positive count.
pub proof fn lemma_marks_count_pos(s: Seq<u8>, i: int)
    requires
        0 <= i < s.len(),
        s[i] != 0,
    ensures
        marks_count(s) >= 1,
    decreases s.len(),
{
    if i < s.len() - 1 {
        lemma_marks_count_pos(s.drop_last(), i);
    }
}

pub proof fn lemma_marks_count_push(s: Seq<u8>, x: u8)
    ensures
        marks_count(s.push(x)) == marks_count(s) + (if x == 0 {
            0nat
        } else {
            1nat
        }),
{
    assert(s.push(x).drop_last() =~= s);
    assert(s.push(x).last() == x);
}

/// Overwriting one cell changes the count exactly by the difference between
/// the old and the new cell being marked.
pub proof fn lemma_marks_count_update(s: Seq<u8>, i: int, x: u8)
    requires
        0 <= i < s.len(),
    ensures
        marks_count(s.update(i, x)) + (if s[i] == 0 {
            0nat
        } else {
            1nat
        }) == marks_count(s) + (if x == 0 {
            0nat
        } else {
            1nat
        }),
    decreases s.len(),
{
    if i == s.len() - 1 {
        assert(s.update(i, x).drop_last() =~= s.drop_last());
        assert(s.update(i, x).last() == x);
    } else {
        assert(s.update(i, x).drop_last() =~= s.drop_last().update(i, x));
        assert(s.update(i, x).last() == s.last());
        lemma_marks_count_update(s.drop_last(), i, x);
    }
}

pub proof fn lemma_marks_count_concat(a: Seq<u8>, b: Seq<u8>)
    ensures
        marks_count(a + b) == marks_count(a) + marks_count(b),
    decreases b.len(),
{
    if b.len() == 0 {
        assert(a + b =~= a);
    } else {
        assert((a + b).drop_last() =~= a + b.drop_last());
        assert((a + b).last() == b.last());
        lemma_marks_count_concat(a, b.drop_last());
    }
}

pub proof fn lemma_marks_count_singleton(x: u8)
    ensures
        marks_count(seq![x]) == (if x == 0 {
            0nat
        } else {
            1nat
        }),
{
    assert(seq![x].drop_last() =~= Seq::<u8>::empty());
    assert(marks_count(Seq::<u8>::empty()) == 0);
}

/// Prepending a blank leaves the count unchanged.
pub proof fn lemma_marks_count_prepend_zero(s: Seq<u8>)
    ensures
        marks_count(seq![0u8] + s) == marks_count(s),
{
    lemma_marks_count_concat(seq![0u8], s);
    lemma_marks_count_singleton(0u8);
}

pub proof fn lemma_marks_count_reverse(s: Seq<u8>)
    ensures
        marks_count(s.reverse()) == marks_count(s),
    decreases s.len(),
{
    if s.len() > 0 {
        assert(s.reverse() =~= seq![s.last()] + s.drop_last().reverse());
        lemma_marks_count_concat(seq![s.last()], s.drop_last().reverse());
        lemma_marks_count_reverse(s.drop_last());
        lemma_marks_count_singleton(s.last());
    }
}

/// The dense-vector tape. Cell `i` of the stored window is `cells[i]`; the
/// window starts with a single blank cell.
#[derive(Debug, Clone, PartialEq)]
pub struct Tape {
    cells: Vec<u8>,
}

impl View for Tape {
    type V = Seq<u8>;

    closed spec fn view(&self) -> Seq<u8> {
        self.cells@
    }
}

impl Default for Tape {
    /// A fresh tape: exactly one blank cell.
    fn default() -> (r: Tape)
        ensures
            r@ =~= seq![0u8],
    {
        Tape { cells: vec![0u8] }
    }
}

impl Tape {
    /// The stored cell at `pos`, if `pos` lies inside the stored window.
    pub fn read(&self, pos: usize) -> (r: Option<u8>)
        ensures
            r == if pos < self@.len() {
                Some(self@[pos as int])
            } else {
                None::<u8>
            },
    {
        if pos < self.cells.len() {
            Some(self.cells[pos])
        } else {
            None
        }
    }

    /// Grows the stored window one cell to the left with a blank.
    pub fn insert(&mut self)
        ensures
            final(self)@ == seq![0u8] + old(self)@,
    {
        self.cells.insert(0, 0u8);
        assert(self@ =~= seq![0u8] + old(self)@);
    }

    /// Overwrites the cell at `pos`; a write just past the stored window
    /// appends instead.
    pub fn write(&mut self, pos: usize, symbol: u8)
        ensures
            final(self)@ == if pos < old(self)@.len() {
                old(self)@.update(pos as int, symbol)
            } else {
                old(self)@.push(symbol)
            },
    {
        if pos < self.cells.len() {
            self.cells.set(pos, symbol);
        } else {
            self.cells.push(symbol);
        }
    }

    /// The conceptual cell at the signed position `i`: blank outside the
    /// stored window.
    fn cell_at(&self, i: i64) -> (r: u8)
        requires
            self@.len() <= i64::MAX,
        ensures
            r == blank_read(self@, i as int),
    {
        if i < 0 || i >= self.cells.len() as i64 {
            0
        } else {
            self.cells[i as usize]
        }
    }

    /// The cells over the window `[first, last)`, blank where the window
    /// leaves the stored range; negative positions are permitted.
    pub fn iter_between(&self, first: i64, last: i64) -> (r: Vec<u8>)
        requires
            self@.len() <= i64::MAX,
        ensures
            r@ == window_seq(self@, first as int, last as int),
    {
        let mut r: Vec<u8> = Vec::new();
        if first >= last {
            assert(r@ =~= window_seq(self@, first as int, last as int));
            return r;
        }
        let mut i: i64 = first;
        while i < last
            invariant
                first <= i <= last,
                self@.len() <= i64::MAX,
                r@ =~= window_seq(self@, first as int, i as int),
            decreases last - i,
        {
            r.push(self.cell_at(i));
            i = i + 1;
            assert(r@ =~= window_seq(self@, first as int, i as int));
        }
        r
    }

    /// The prefix `[0, to)` of the conceptual tape.
    pub fn iter_to(&self, to: usize) -> (r: Vec<u8>)
        requires
            self@.len() <= i64::MAX,
            to <= i64::MAX,
        ensures
            r@ == window_seq(self@, 0, to as int),
    {
        self.iter_between(0, to as i64)
    }

    /// The suffix `[from, len)` of the stored window; negative `from` yields
    /// leading blanks.
    pub fn iter_from(&self, from: i64) -> (r: Vec<u8>)
        requires
            self@.len() <= i64::MAX,
        ensures
            r@ == window_seq(self@, from as int, self@.len() as int),
    {
        self.iter_between(from, self.cells.len() as i64)
    }

    /// A copy of the stored window.
    pub fn iter(&self) -> (r: Vec<u8>)
        ensures
            r@ == self@,
    {
        let mut r: Vec<u8> = Vec::new();
        let mut i: usize = 0;
        while i < self.cells.len()
            invariant
                i <= self@.len(),
                r@ =~= self@.take(i as int),
            decreases self@.len() - i,
        {
            r.push(self.cells[i]);
            i = i + 1;
            assert(r@ =~= self@.take(i as int));
        }
        assert(self@.take(self@.len() as int) =~= self@);
        r
    }

    /// The length of the stored window.
    pub fn size(&self) -> (r: usize)
        ensures
            r == self@.len(),
    {
        self.cells.len()
    }

    /// Recounts the marked (non-blank) cells of the stored window.
    pub fn marks(&self) -> (r: usize)
        ensures
            r == marks_count(self@),
    {
        let mut count: usize = 0;
        let mut i: usize = 0;
        proof {
            assert(self@.take(0) =~= Seq::<u8>::empty());
        }
        while i < self.cells.len()
            invariant
                i <= self@.len(),
                count == marks_count(self@.take(i as int)),
                count <= i,
            decreases self@.len() - i,
        {
            proof {
                assert(self@.take(i + 1).drop_last() =~= self@.take(i as int));
                assert(self@.take(i + 1).last() == self@[i as int]);
            }
            if self.cells[i] != 0 {
                count = count + 1;
            }
            i = i + 1;
        }
        proof {
            assert(self@.take(self@.len() as int) =~= self@);
        }
        count
    }

    /// A deep copy whose contents equal the source tape's.
    pub fn duplicate(&self) -> (r: Tape)
        ensures
            r@ == self@,
    {
        Tape { cells: self.iter() }
    }
}

/// One write-and-move on a tape representation that always stores the head
/// cell: the contents afterwards.
pub open spec fn stack_step_contents(c: Seq<u8>, h: int, d: Direction, sym: u8) -> Seq<u8> {
    let c1 = c.update(h, sym);
    match d {
        Direction::Left => if h == 0 {
            seq![0u8] + c1
        } else {
            c1
        },
        Direction::Right => if h == c.len() - 1 {
            c1.push(0u8)
        } else {
            c1
        },
    }
}

/// One write-and-move on such a tape: the head position afterwards.
pub open spec fn stack_step_head(c: Seq<u8>, h: int, d: Direction) -> int {
    match d {
        Direction::Left => if h == 0 {
            0
        } else {
            h - 1
        },
        Direction::Right => h + 1,
    }
}

/// A tape interface: contents, head, mark count, and the atomic
/// write-and-move step.
pub trait ITape: Sized {
    spec fn contents(&self) -> Seq<u8>;

    spec fn head(&self) -> int;

    spec fn wf(&self) -> bool;

    /// The symbol under the head.
    fn read(&self) -> (r: u8)
        requires
            self.wf(),
        ensures
            r == blank_read(self.contents(), self.head());

    /// The number of non-blank cells.
    fn marks(&self) -> (r: usize)
        requires
            self.wf(),
        ensures
            r == marks_count(self.contents());

    /// Overwrites the cell under the head, then moves the head one cell,
    /// growing the stored range with a blank when the head leaves it.
    fn write_symbol(&mut self, direction: Direction, symbol: u8) -> (r: usize)
        requires
            old(self).wf(),
            old(self).contents().len() < usize::MAX,
        ensures
            final(self).wf(),
            final(self).contents() == stack_step_contents(
                old(self).contents(),
                old(self).head(),
                direction,
                symbol,
            ),
            final(self).head() == stack_step_head(
                old(self).contents(),
                old(self).head(),
                direction,
            ),
            r == 1,
;
}

/// The two-stack tape: cells left of the head (nearest last), the cell under
/// the head, and cells right of the head (nearest last).
#[derive(Debug, Clone, PartialEq)]
pub struct SSTape {
    left: Vec<u8>,
    center: u8,
    right: Vec<u8>,
}

impl SSTape {
    /// The whole stored window, left to right.
    pub closed spec fn contents_seq(&self) -> Seq<u8> {
        self.left@ + seq![self.center] + self.right@.reverse()
    }
}

impl Default for SSTape {
    /// A fresh two-stack tape: one blank cell under the head.
    fn default() -> (r: SSTape)
        ensures
            r.contents() =~= seq![0u8],
            r.head() == 0,
            r.wf(),
    {
        let r = SSTape { left: Vec::new(), center: 0, right: Vec::new() };
        proof {
            assert(r.contents_seq() =~= seq![0u8]);
        }
        r
    }
}

impl ITape for SSTape {
    open spec fn contents(&self) -> Seq<u8> {
        self.contents_seq()
    }

    closed spec fn head(&self) -> int {
        self.left@.len() as int
    }

    closed spec fn wf(&self) -> bool {
        self.left@.len() + self.right@.len() + 1 <= usize::MAX
    }

    fn read(&self) -> (r: u8) {
        proof {
            assert(self.contents_seq()[self.left@.len() as int] == self.center);
        }
        self.center
    }

    fn marks(&self) -> (r: usize) {
        let left_marks = count_vec_marks(&self.left);
        let right_marks = count_vec_marks(&self.right);
        proof {
            lemma_marks_count_le(self.left@);
            lemma_marks_count_le(self.right@);
            lemma_marks_count_concat(self.left@ + seq![self.center], self.right@.reverse());
            lemma_marks_count_concat(self.left@, seq![self.center]);
            lemma_marks_count_reverse(self.right@);
            lemma_marks_count_singleton(self.center);
            assert(self.left@.len() + self.right@.len() + 1 <= usize::MAX);
        }
        let center_mark: usize = if self.center != 0 {
            1
        } else {
            0
        };
        left_marks + right_marks + center_mark
    }

    fn write_symbol(&mut self, direction: Direction, symbol: u8) -> (r: usize) {
        let ghost c = self.contents_seq();
        let ghost h = self.left@.len() as int;
        match direction {
            Direction::Left => {
                self.right.push(symbol);
                let popped = self.left.pop();
                match popped {
                    Some(cell) => {
                        self.center = cell;
                        proof {
                            assert(self.contents_seq() =~= stack_step_contents(
                                c,
                                h,
                                Direction::Left,
                                symbol,
                            ));
                        }
                    },
                    None => {
                        self.center = 0;
                        proof {
                            assert(self.contents_seq() =~= stack_step_contents(
                                c,
                                h,
                                Direction::Left,
                                symbol,
                            ));
                        }
                    },
                }
            },
            Direction::Right => {
                self.left.push(symbol);
                let popped = self.right.pop();
                match popped {
                    Some(cell) => {
                        self.center = cell;
                        proof {
                            assert(self.contents_seq() =~= stack_step_contents(
                                c,
                                h,
                                Direction::Right,
                                symbol,
                            ));
                        }
                    },
                    None => {
                        self.center = 0;
                        proof {
                            assert(self.contents_seq() =~= stack_step_contents(
                                c,
                                h,
                                Direction::Right,
                                symbol,
                            ));
                        }
                    },
                }
            },
        }
        1
    }
}

/// Counts the non-blank cells of a plain vector.
fn count_vec_marks(v: &Vec<u8>) -> (r: usize)
    ensures
        r == marks_count(v@),
{
    let mut count: usize = 0;
    let mut i: usize = 0;
    proof {
        assert(v@.take(0) =~= Seq::<u8>::empty());
        lemma_marks_count_le(v@);
    }
    while i < v.len()
        invariant
            i <= v@.len(),
            count == marks_count(v@.take(i as int)),
            count <= i,
        decreases v@.len() - i,
    {
        proof {
            assert(v@.take(i + 1).drop_last() =~= v@.take(i as int));
            assert(v@.take(i + 1).last() == v@[i as int]);
        }
        if v[i] != 0 {
            count = count + 1;
        }
        i = i + 1;
    }
    proof {
        assert(v@.take(v@.len() as int) =~= v@);
    }
    count
}

} // verus!
