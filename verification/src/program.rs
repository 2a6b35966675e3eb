//! Programs: the total mapping from `(state, read symbol)` to a transition
//! or to the undefined marker, and the reader that builds one from its
//! surface notation.
//!
//! A program string is either rows separated by double whitespace, one row
//! per state, or a single flat row of tokens; a flat row is split by
//! inferring the symbol count from the largest written digit.

use vstd::prelude::*;
use vstd::string::*;

use crate::model::{instr_wf, Instruction, ProgSpec};
use crate::parse::{lemma_spec_rows_cont_acc, parse_instructions, spec_parse_instructions, spec_row, Token};
use crate::types::Direction;

verus! {

/// The reason a program string was rejected.
#[derive(Debug, PartialEq)]
pub struct ProgramParseError(pub String);

/// A transition table over `states` states and `symbols` symbols. Entries
/// are row-major by state then read symbol; `None` marks an undefined
/// transition. The next state equal to `states` is the halt state.
#[derive(Debug)]
pub struct Program {
    states: u8,
    symbols: u8,
    table: Vec<Option<Instruction>>,
}

impl View for Program {
    type V = ProgSpec;

    closed spec fn view(&self) -> ProgSpec {
        ProgSpec { states: self.states, symbols: self.symbols, table: self.table@ }
    }
}

impl Program {
    /// The number of states.
    pub fn states(&self) -> (r: u8)
        ensures
            r == self@.states,
    {
        self.states
    }

    /// The number of symbols.
    pub fn symbols(&self) -> (r: u8)
        ensures
            r == self@.symbols,
    {
        self.symbols
    }

    /// Looks up the transition for `state` reading `symbol`; `None` is the
    /// undefined transition. The halt state has no row.
    pub fn instruction(&self, state: u8, symbol: u8) -> (r: Option<Instruction>)
        requires
            self@.wf(),
            state < self@.states,
            symbol < self@.symbols,
        ensures
            r == self@.entry(state as int, symbol as int),
    {
        proof {
            assert(state * self.symbols + symbol < self.states * self.symbols <= 24)
                by (nonlinear_arith)
                requires
                    state < self.states,
                    symbol < self.symbols,
                    0 < self.symbols,
                    self.states <= 6,
                    self.symbols <= 4,
            ;
        }
        let idx: usize = (state as usize) * (self.symbols as usize) + (symbol as usize);
        self.table[idx]
    }
}

/// The numeric value of a decimal digit character.
pub open spec fn digit_val(c: char) -> Option<u8> {
    if c == '0' {
        Some(0u8)
    } else if c == '1' {
        Some(1u8)
    } else if c == '2' {
        Some(2u8)
    } else if c == '3' {
        Some(3u8)
    } else if c == '4' {
        Some(4u8)
    } else if c == '5' {
        Some(5u8)
    } else if c == '6' {
        Some(6u8)
    } else if c == '7' {
        Some(7u8)
    } else if c == '8' {
        Some(8u8)
    } else if c == '9' {
        Some(9u8)
    } else {
        None
    }
}

/// The index of a state letter, `A` through `F`.
pub open spec fn state_letter_idx(c: char) -> Option<u8> {
    if c == 'A' {
        Some(0u8)
    } else if c == 'B' {
        Some(1u8)
    } else if c == 'C' {
        Some(2u8)
    } else if c == 'D' {
        Some(3u8)
    } else if c == 'E' {
        Some(4u8)
    } else if c == 'F' {
        Some(5u8)
    } else {
        None
    }
}

/// What a token means for a `(states, symbols)` table: `None` when the token
/// is invalid for that shape, `Some(None)` for the all-dots undefined
/// marker, and `Some(Some(_))` for a transition.
pub open spec fn spec_token_entry(t: Token, states: u8, symbols: u8) -> Option<
    Option<Instruction>,
> {
    if t == ('.', '.', '.') {
        Some(None::<Instruction>)
    } else {
        let d = digit_val(t.0);
        let dir = if t.1 == 'L' {
            Some(Direction::Left)
        } else if t.1 == 'R' {
            Some(Direction::Right)
        } else {
            None::<Direction>
        };
        let st = if t.2 == 'H' {
            Some(states)
        } else {
            match state_letter_idx(t.2) {
                Some(i) => if i < states {
                    Some(i)
                } else {
                    None::<u8>
                },
                None => None::<u8>,
            }
        };
        if d is Some && d->0 < symbols && dir is Some && st is Some {
            Some(Some((st->0, d->0, dir->0)))
        } else {
            None
        }
    }
}

/// The largest digit written by any token of a flat row (`0` when none
/// writes a digit).
pub open spec fn max_digit(toks: Seq<Token>) -> int
    decreases toks.len(),
{
    if toks.len() == 0 {
        0
    } else {
        let m = max_digit(toks.drop_last());
        let d = match digit_val(toks.last().0) {
            Some(d) => d as int,
            None => 0,
        };
        if d > m {
            d
        } else {
            m
        }
    }
}

/// The symbol count inferred for a flat row: one more than the largest
/// written digit, at least two.
pub open spec fn inferred_symbols(toks: Seq<Token>) -> int {
    if max_digit(toks) < 1 {
        2
    } else {
        max_digit(toks) + 1
    }
}

/// A flat row split into `states` rows of `symbols` tokens.
pub open spec fn spec_regroup(toks: Seq<Token>, states: int, symbols: int) -> Seq<Seq<Token>> {
    Seq::new(states as nat, |s: int| toks.subrange(s * symbols, s * symbols + symbols))
}

pub open spec fn rows_all_len(rows: Seq<Seq<Token>>, cols: int) -> bool {
    forall|i: int| 0 <= i < rows.len() ==> (#[trigger] rows[i]).len() == cols
}

/// The shape of the parsed rows: the state and symbol counts and the rows
/// regrouped to that shape, or `None` when no supported shape fits.
pub open spec fn spec_shape(rows: Seq<Seq<Token>>) -> Option<(u8, u8, Seq<Seq<Token>>)> {
    if rows.len() == 1 {
        let toks = rows[0];
        let k = inferred_symbols(toks);
        if k <= 4 && (toks.len() as int) % (k as int) == 0 {
            let n = (toks.len() as int) / (k as int);
            if 2 <= n <= 6 {
                Some((n as u8, k as u8, spec_regroup(toks, n, k)))
            } else {
                None
            }
        } else {
            None
        }
    } else if 2 <= rows.len() <= 6 && 2 <= rows[0].len() <= 4 && rows_all_len(
        rows,
        rows[0].len() as int,
    ) {
        Some((rows.len() as u8, rows[0].len() as u8, rows))
    } else {
        None
    }
}

pub open spec fn all_tokens_valid(rows: Seq<Seq<Token>>, states: u8, symbols: u8) -> bool {
    forall|s: int, y: int|
        0 <= s < states && 0 <= y < symbols ==> spec_token_entry(
            #[trigger] rows[s][y],
            states,
            symbols,
        ) is Some
}

/// The table built from regrouped rows, or `None` when a token is invalid.
pub open spec fn spec_build_table(rows: Seq<Seq<Token>>, states: u8, symbols: u8) -> Option<
    Seq<Option<Instruction>>,
> {
    if all_tokens_valid(rows, states, symbols) {
        Some(
            Seq::new(
                (states * symbols) as nat,
                |idx: int|
                    spec_token_entry(
                        rows[idx / (symbols as int)][idx % (symbols as int)],
                        states,
                        symbols,
                    )->Some_0,
            ),
        )
    } else {
        None
    }
}

/// The whole reader: token grammar, full consumption, shape, validation.
pub open spec fn spec_parse_program(cs: Seq<char>) -> Option<ProgSpec> {
    match spec_parse_instructions(cs) {
        None => None,
        Some((rest, rows)) => if rest.len() != 0 {
            None
        } else {
            match spec_shape(rows) {
                None => None,
                Some((n, k, g)) => match spec_build_table(g, n, k) {
                    None => None,
                    Some(t) => Some(ProgSpec { states: n, symbols: k, table: t }),
                },
            }
        },
    }
}

/// A parsed program, tagged by its shape `(states, symbols)`.
#[derive(Debug)]
pub enum ProgramT {
    TwoTwo(Program),
    TwoThree(Program),
    TwoFour(Program),
    ThreeTwo(Program),
    ThreeThree(Program),
    ThreeFour(Program),
    FourTwo(Program),
    FourThree(Program),
    FourFour(Program),
    FiveTwo(Program),
    FiveThree(Program),
    FiveFour(Program),
    SixTwo(Program),
    SixThree(Program),
    SixFour(Program),
}

impl ProgramT {
    /// The shape a variant stands for.
    pub open spec fn dims(self) -> (u8, u8) {
        match self {
            ProgramT::TwoTwo(_) => (2u8, 2u8),
            ProgramT::TwoThree(_) => (2u8, 3u8),
            ProgramT::TwoFour(_) => (2u8, 4u8),
            ProgramT::ThreeTwo(_) => (3u8, 2u8),
            ProgramT::ThreeThree(_) => (3u8, 3u8),
            ProgramT::ThreeFour(_) => (3u8, 4u8),
            ProgramT::FourTwo(_) => (4u8, 2u8),
            ProgramT::FourThree(_) => (4u8, 3u8),
            ProgramT::FourFour(_) => (4u8, 4u8),
            ProgramT::FiveTwo(_) => (5u8, 2u8),
            ProgramT::FiveThree(_) => (5u8, 3u8),
            ProgramT::FiveFour(_) => (5u8, 4u8),
            ProgramT::SixTwo(_) => (6u8, 2u8),
            ProgramT::SixThree(_) => (6u8, 3u8),
            ProgramT::SixFour(_) => (6u8, 4u8),
        }
    }

    /// The wrapped program.
    pub open spec fn prog(self) -> Program {
        match self {
            ProgramT::TwoTwo(p) => p,
            ProgramT::TwoThree(p) => p,
            ProgramT::TwoFour(p) => p,
            ProgramT::ThreeTwo(p) => p,
            ProgramT::ThreeThree(p) => p,
            ProgramT::ThreeFour(p) => p,
            ProgramT::FourTwo(p) => p,
            ProgramT::FourThree(p) => p,
            ProgramT::FourFour(p) => p,
            ProgramT::FiveTwo(p) => p,
            ProgramT::FiveThree(p) => p,
            ProgramT::FiveFour(p) => p,
            ProgramT::SixTwo(p) => p,
            ProgramT::SixThree(p) => p,
            ProgramT::SixFour(p) => p,
        }
    }

    /// Takes the wrapped program out.
    pub fn into_program(self) -> (r: Program)
        ensures
            r == self.prog(),
    {
        match self {
            ProgramT::TwoTwo(p) => p,
            ProgramT::TwoThree(p) => p,
            ProgramT::TwoFour(p) => p,
            ProgramT::ThreeTwo(p) => p,
            ProgramT::ThreeThree(p) => p,
            ProgramT::ThreeFour(p) => p,
            ProgramT::FourTwo(p) => p,
            ProgramT::FourThree(p) => p,
            ProgramT::FourFour(p) => p,
            ProgramT::FiveTwo(p) => p,
            ProgramT::FiveThree(p) => p,
            ProgramT::FiveFour(p) => p,
            ProgramT::SixTwo(p) => p,
            ProgramT::SixThree(p) => p,
            ProgramT::SixFour(p) => p,
        }
    }

    /// Borrows the wrapped program.
    pub fn program(&self) -> (r: &Program)
        ensures
            *r == self.prog(),
    {
        match self {
            ProgramT::TwoTwo(p) => p,
            ProgramT::TwoThree(p) => p,
            ProgramT::TwoFour(p) => p,
            ProgramT::ThreeTwo(p) => p,
            ProgramT::ThreeThree(p) => p,
            ProgramT::ThreeFour(p) => p,
            ProgramT::FourTwo(p) => p,
            ProgramT::FourThree(p) => p,
            ProgramT::FourFour(p) => p,
            ProgramT::FiveTwo(p) => p,
            ProgramT::FiveThree(p) => p,
            ProgramT::FiveFour(p) => p,
            ProgramT::SixTwo(p) => p,
            ProgramT::SixThree(p) => p,
            ProgramT::SixFour(p) => p,
        }
    }
}

fn exec_digit_val(c: char) -> (r: Option<u8>)
    ensures
        r == digit_val(c),
{
    match c {
        '0' => Some(0u8),
        '1' => Some(1u8),
        '2' => Some(2u8),
        '3' => Some(3u8),
        '4' => Some(4u8),
        '5' => Some(5u8),
        '6' => Some(6u8),
        '7' => Some(7u8),
        '8' => Some(8u8),
        '9' => Some(9u8),
        _ => None,
    }
}

fn exec_state_letter_idx(c: char) -> (r: Option<u8>)
    ensures
        r == state_letter_idx(c),
{
    match c {
        'A' => Some(0u8),
        'B' => Some(1u8),
        'C' => Some(2u8),
        'D' => Some(3u8),
        'E' => Some(4u8),
        'F' => Some(5u8),
        _ => None,
    }
}

fn token_entry(t: Token, states: u8, symbols: u8) -> (r: Option<Option<Instruction>>)
    ensures
        r == spec_token_entry(t, states, symbols),
{
    let (a, b, c) = t;
    if a == '.' && b == '.' && c == '.' {
        return Some(None);
    }
    let d = exec_digit_val(a);
    let dir = Direction::from_char(b);
    let st: Option<u8> = if c == 'H' {
        Some(states)
    } else {
        match exec_state_letter_idx(c) {
            Some(i) => if i < states {
                Some(i)
            } else {
                None
            },
            None => None,
        }
    };
    match (d, dir, st) {
        (Some(dv), Some(dirv), Some(stv)) => if dv < symbols {
            Some(Some((stv, dv, dirv)))
        } else {
            None
        },
        _ => None,
    }
}

/// Builds the transition table for validated shape `(states, symbols)` from
/// regrouped rows; `None` when some token is invalid for the shape.
fn build_table(rows: &Vec<Vec<Token>>, states: u8, symbols: u8) -> (r: Option<
    Vec<Option<Instruction>>,
>)
    requires
        rows@.len() == states,
        forall|s: int| 0 <= s < states ==> (#[trigger] rows@[s])@.len() == symbols,
        2 <= states <= 6,
        2 <= symbols <= 4,
    ensures
        ({
            let g = Seq::new(states as nat, |s: int| rows@[s]@);
            match spec_build_table(g, states, symbols) {
                Some(t) => r matches Some(v) && v@ == t,
                None => r is None,
            }
        }),
{
    let ghost g = Seq::new(states as nat, |s: int| rows@[s]@);
    proof {
        assert((states as int) * (symbols as int) <= 24) by (nonlinear_arith)
            requires
                states <= 6,
                symbols <= 4,
        ;
    }
    let total: usize = (states as usize) * (symbols as usize);
    let mut table: Vec<Option<Instruction>> = Vec::new();
    let mut idx: usize = 0;
    while idx < total
        invariant
            idx <= total,
            total == states * symbols,
            rows@.len() == states,
            forall|s: int| 0 <= s < states ==> (#[trigger] rows@[s])@.len() == symbols,
            2 <= states <= 6,
            2 <= symbols <= 4,
            g == Seq::new(states as nat, |s: int| rows@[s]@),
            table@.len() == idx,
            forall|j: int|
                0 <= j < idx ==> (spec_token_entry(
                    #[trigger] g[j / (symbols as int)][j % (symbols as int)],
                    states,
                    symbols,
                ) matches Some(e)
                    && table@[j] == e),
        decreases total - idx,
    {
        let s: usize = idx / (symbols as usize);
        let y: usize = idx % (symbols as usize);
        proof {
            vstd::arithmetic::div_mod::lemma_fundamental_div_mod(idx as int, symbols as int);
            vstd::arithmetic::div_mod::lemma_mod_bound(idx as int, symbols as int);
            assert(s < states) by (nonlinear_arith)
                requires
                    idx == (symbols as int) * s + y,
                    idx < states * symbols,
                    0 <= y < symbols,
                    symbols > 0,
            ;
        }
        let t = rows[s][y];
        proof {
            assert(t == g[s as int][y as int]);
        }
        match token_entry(t, states, symbols) {
            Some(e) => {
                table.push(e);
            },
            None => {
                proof {
                    assert(!all_tokens_valid(g, states, symbols)) by {
                        assert(spec_token_entry(g[s as int][y as int], states, symbols) is None);
                    }
                }
                return None;
            },
        }
        idx = idx + 1;
    }
    proof {
        assert(all_tokens_valid(g, states, symbols)) by {
            assert forall|s2: int, y2: int|
                0 <= s2 < states && 0 <= y2 < symbols implies spec_token_entry(
                #[trigger] g[s2][y2],
                states,
                symbols,
            ) is Some by {
                let j = s2 * (symbols as int) + y2;
                assert(0 <= j < states * symbols) by (nonlinear_arith)
                    requires
                        j == s2 * symbols + y2,
                        0 <= s2 < states,
                        0 <= y2 < symbols,
                ;
                vstd::arithmetic::div_mod::lemma_fundamental_div_mod_converse(
                    j,
                    symbols as int,
                    s2,
                    y2,
                );
            }
        }
        let t = spec_build_table(g, states, symbols)->Some_0;
        assert(table@ =~= t);
    }
    Some(table)
}

/// Reads a program from its surface notation: rows of instruction tokens, or
/// one flat row split by the inferred symbol count.
pub fn parse_program(prog_str: &str) -> (r: Result<ProgramT, ProgramParseError>)
    ensures
        (r is Ok) == (spec_parse_program(prog_str@) is Some),
        r matches Ok(pt) ==> {
            let p = spec_parse_program(prog_str@)->Some_0;
            &&& pt.prog()@ == p
            &&& pt.dims() == (p.states, p.symbols)
            &&& p.wf()
        },
{
    let parsed = parse_instructions(prog_str);
    let (rest, rows) = match parsed {
        None => {
            return Err(ProgramParseError(String::from_str("program string does not parse")));
        },
        Some(p) => p,
    };
    if rest.unicode_len() != 0 {
        return Err(ProgramParseError(String::from_str("unexpected trailing input")));
    }
    let ghost srows = spec_parse_instructions(prog_str@)->Some_0.1;
    proof {
        assert(rest@ =~= Seq::<char>::empty());
        lemma_spec_rows_cont_acc(
            spec_row(prog_str@)->Some_0.0,
            seq![spec_row(prog_str@)->Some_0.1],
        );
        assert(srows.len() >= 1);
        assert(Seq::new(rows@.len(), |i: int| rows@[i]@) =~= srows);
    }
    let (states, symbols, grouped) = match shape_rows(rows) {
        None => {
            proof {
                assert(spec_shape(srows) is None);
            }
            return Err(ProgramParseError(String::from_str("unsupported program shape")));
        },
        Some(t) => t,
    };
    let table = match build_table(&grouped, states, symbols) {
        None => {
            return Err(ProgramParseError(String::from_str("invalid instruction token")));
        },
        Some(t) => t,
    };
    let prog = Program { states, symbols, table };
    proof {
        let p = spec_parse_program(prog_str@)->Some_0;
        assert(Seq::new(states as nat, |s2: int| grouped@[s2]@) =~= spec_shape(
            srows,
        )->Some_0.2);
        assert(prog@ =~= p);
        assert(p.wf()) by {
            lemma_built_table_wf(Seq::new(states as nat, |s: int| grouped@[s]@), states, symbols);
        }
    }
    match (states, symbols) {
        (2, 2) => Ok(ProgramT::TwoTwo(prog)),
        (2, 3) => Ok(ProgramT::TwoThree(prog)),
        (2, 4) => Ok(ProgramT::TwoFour(prog)),
        (3, 2) => Ok(ProgramT::ThreeTwo(prog)),
        (3, 3) => Ok(ProgramT::ThreeThree(prog)),
        (3, 4) => Ok(ProgramT::ThreeFour(prog)),
        (4, 2) => Ok(ProgramT::FourTwo(prog)),
        (4, 3) => Ok(ProgramT::FourThree(prog)),
        (4, 4) => Ok(ProgramT::FourFour(prog)),
        (5, 2) => Ok(ProgramT::FiveTwo(prog)),
        (5, 3) => Ok(ProgramT::FiveThree(prog)),
        (5, 4) => Ok(ProgramT::FiveFour(prog)),
        (6, 2) => Ok(ProgramT::SixTwo(prog)),
        (6, 3) => Ok(ProgramT::SixThree(prog)),
        (6, 4) => Ok(ProgramT::SixFour(prog)),
        _ => {
            proof {
                assert(false);
            }
            Err(ProgramParseError(String::from_str("unsupported program shape")))
        },
    }
}

/// A table whose entries all come from valid tokens is well formed.
proof fn lemma_built_table_wf(g: Seq<Seq<Token>>, states: u8, symbols: u8)
    requires
        2 <= states <= 6,
        2 <= symbols <= 4,
        spec_build_table(g, states, symbols) is Some,
    ensures
        (ProgSpec { states, symbols, table: spec_build_table(g, states, symbols)->Some_0 }).wf(),
{
    let t = spec_build_table(g, states, symbols)->Some_0;
    assert forall|i: int| 0 <= i < t.len() implies instr_wf(#[trigger] t[i], states, symbols) by {
        let s2 = i / (symbols as int);
        let y2 = i % (symbols as int);
        vstd::arithmetic::div_mod::lemma_fundamental_div_mod(i, symbols as int);
        vstd::arithmetic::div_mod::lemma_mod_bound(i, symbols as int);
        assert(0 <= s2 < states) by (nonlinear_arith)
            requires
                i == (symbols as int) * s2 + y2,
                0 <= i < states * symbols,
                0 <= y2 < symbols,
                symbols > 0,
        ;
        let e = spec_token_entry(g[s2][y2], states, symbols);
        assert(e is Some);
        assert(t[i] == e->Some_0);
        match e->Some_0 {
            None => {},
            Some((st, sy, _)) => {
                assert(st <= states && sy < symbols);
            },
        }
    }
}

/// Determines the shape of the parsed rows and regroups a flat row; mirrors
/// [`spec_shape`].
fn shape_rows(rows: Vec<Vec<Token>>) -> (r: Option<(u8, u8, Vec<Vec<Token>>)>)
    requires
        rows@.len() >= 1,
    ensures
        ({
            let srows = Seq::new(rows@.len(), |i: int| rows@[i]@);
            match spec_shape(srows) {
                None => r is None,
                Some((n, k, g)) => r matches Some((rn, rk, rg)) && rn == n && rk == k && rg@.len()
                    == n && (forall|s: int| 0 <= s < n ==> (#[trigger] rg@[s])@ == g[s]) && (
                forall|s: int| 0 <= s < n ==> (#[trigger] rg@[s])@.len() == k),
            }
        }),
{
    let ghost srows = Seq::new(rows@.len(), |i: int| rows@[i]@);
    if rows.len() == 1 {
        let toks = &rows[0];
        proof {
            assert(srows[0] == toks@);
        }
        // largest written digit over the flat row
        let mut maxd: u8 = 0;
        let mut i: usize = 0;
        proof {
            assert(toks@.take(0) =~= Seq::<Token>::empty());
        }
        while i < toks.len()
            invariant
                i <= toks@.len(),
                maxd == max_digit(toks@.take(i as int)),
                maxd <= 9,
            decreases toks@.len() - i,
        {
            proof {
                assert(toks@.take(i + 1).drop_last() =~= toks@.take(i as int));
                assert(toks@.take(i + 1).last() == toks@[i as int]);
            }
            let d = exec_digit_val(toks[i].0);
            match d {
                Some(dv) => if dv > maxd {
                    maxd = dv;
                },
                None => (),
            }
            i = i + 1;
        }
        proof {
            assert(toks@.take(toks@.len() as int) =~= toks@);
        }
        let k: u8 = if maxd < 1 {
            2
        } else {
            maxd + 1
        };
        if k > 4 {
            return None;
        }
        let total = toks.len();
        if total % (k as usize) != 0 {
            return None;
        }
        let n_big = total / (k as usize);
        if n_big < 2 || n_big > 6 {
            return None;
        }
        let n: u8 = n_big as u8;
        proof {
            vstd::arithmetic::div_mod::lemma_fundamental_div_mod(total as int, k as int);
            assert((n as int) * (k as int) == toks@.len()) by (nonlinear_arith)
                requires
                    total == (k as int) * (n as int) + (total as int) % (k as int),
                    (total as int) % (k as int) == 0,
                    total == toks@.len(),
            ;
        }
        // regroup the flat row into n rows of k tokens
        let ghost g = spec_regroup(toks@, n as int, k as int);
        let mut grouped: Vec<Vec<Token>> = Vec::new();
        let mut s: u8 = 0;
        let mut idx: usize = 0;
        while s < n
            invariant
                s <= n,
                idx == s * k,
                idx <= toks@.len(),
                toks@.len() <= usize::MAX,
                n * k == toks@.len(),
                2 <= k <= 4,
                2 <= n <= 6,
                g == spec_regroup(toks@, n as int, k as int),
                grouped@.len() == s,
                forall|s2: int| 0 <= s2 < s ==> (#[trigger] grouped@[s2])@ == g[s2],
                forall|s2: int| 0 <= s2 < s ==> (#[trigger] grouped@[s2])@.len() == k,
            decreases n - s,
        {
            let mut row: Vec<Token> = Vec::new();
            let mut y: u8 = 0;
            while y < k
                invariant
                    s < n,
                    y <= k,
                    idx == s * k + y,
                    idx <= toks@.len(),
                    toks@.len() <= usize::MAX,
                    n * k == toks@.len(),
                    2 <= k <= 4,
                    2 <= n <= 6,
                    row@.len() == y,
                    forall|y2: int| 0 <= y2 < y ==> row@[y2] == toks@[s * k + y2],
                decreases k - y,
            {
                proof {
                    assert(idx < toks@.len()) by (nonlinear_arith)
                        requires
                            idx == s * k + y,
                            s < n,
                            y < k,
                            n * k == toks@.len(),
                    ;
                }
                row.push(toks[idx]);
                idx = idx + 1;
                y = y + 1;
            }
            proof {
                assert(0 <= s * k && s * k + k <= toks@.len()) by (nonlinear_arith)
                    requires
                        s < n,
                        n * k == toks@.len(),
                        0 < k,
                        0 <= s,
                ;
                assert(g[s as int] == toks@.subrange(s * k, s * k + k));
                assert(g[s as int] =~= row@);
                assert(s * k + k == (s + 1) * k) by (nonlinear_arith);
            }
            grouped.push(row);
            s = s + 1;
        }
        Some((n, k, grouped))
    } else {
        // two or more explicit rows: all must share the first row's width
        let n_big = rows.len();
        if n_big > 6 {
            return None;
        }
        let cols = rows[0].len();
        if cols < 2 || cols > 4 {
            return None;
        }
        let mut i: usize = 1;
        while i < rows.len()
            invariant
                1 <= i <= rows@.len(),
                rows@.len() <= 6,
                srows == Seq::new(rows@.len(), |j: int| rows@[j]@),
                cols == srows[0].len(),
                forall|j: int| 0 <= j < i ==> (#[trigger] srows[j]).len() == cols,
            decreases rows@.len() - i,
        {
            if rows[i].len() != cols {
                proof {
                    assert(!rows_all_len(srows, cols as int)) by {
                        assert(srows[i as int].len() != cols);
                    }
                }
                return None;
            }
            i = i + 1;
        }
        let n: u8 = n_big as u8;
        let k: u8 = cols as u8;
        proof {
            assert(rows_all_len(srows, cols as int));
            assert(spec_shape(srows) matches Some((sn, sk, sg)) && sn == n && sk == k && sg
                == srows);
            assert forall|j: int| 0 <= j < n implies (#[trigger] rows@[j])@.len() == k by {
                assert(srows[j].len() == cols);
            }
        }
        Some((n, k, rows))
    }
}

} // verus!
