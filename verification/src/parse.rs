//! The surface notation of a program: whitespace-separated three-character
//! instruction tokens (`<write symbol><direction><next state>`, each possibly
//! `.`), rows separated by two whitespace characters.
//!
//! Each function returns the unconsumed remainder of the input together with
//! what it read, or `None` when even the first element cannot be read.

use vstd::prelude::*;
use vstd::string::*;

verus! {

/// A raw instruction token: write symbol, direction, next state.
pub type Token = (char, char, char);

pub open spec fn is_sym_char(c: char) -> bool {
    ('0' <= c && c <= '9') || c == '.'
}

pub open spec fn is_dir_char(c: char) -> bool {
    c == 'L' || c == 'R' || c == '.'
}

pub open spec fn is_state_char(c: char) -> bool {
    ('A' <= c && c <= 'Z') || c == '.'
}

/// A separator character: an ASCII space or tab.
pub open spec fn is_sep_char(c: char) -> bool {
    c == ' ' || c == '\t'
}

/// A token standing at the front of `cs`: its remainder and its characters.
pub open spec fn spec_instruction(cs: Seq<char>) -> Option<(Seq<char>, Token)> {
    if cs.len() >= 3 && is_sym_char(cs[0]) && is_dir_char(cs[1]) && is_state_char(cs[2]) {
        Some((cs.skip(3), (cs[0], cs[1], cs[2])))
    } else {
        None
    }
}

/// After one token of a row: consumes `<sep><token>` groups as long as they
/// stand at the front of `cs`.
pub open spec fn spec_row_cont(cs: Seq<char>, acc: Seq<Token>) -> (Seq<char>, Seq<Token>)
    decreases cs.len(),
{
    if cs.len() >= 4 && is_sep_char(cs[0]) && is_sym_char(cs[1]) && is_dir_char(cs[2])
        && is_state_char(cs[3]) {
        spec_row_cont(cs.skip(4), acc.push((cs[1], cs[2], cs[3])))
    } else {
        (cs, acc)
    }
}

/// One row: a token, then single-separated further tokens.
pub open spec fn spec_row(cs: Seq<char>) -> Option<(Seq<char>, Seq<Token>)> {
    match spec_instruction(cs) {
        None => None,
        Some((rest, t)) => Some(spec_row_cont(rest, seq![t])),
    }
}

pub proof fn lemma_spec_row_cont_len(cs: Seq<char>, acc: Seq<Token>)
    ensures
        spec_row_cont(cs, acc).0.len() <= cs.len(),
    decreases cs.len(),
{
    if cs.len() >= 4 && is_sep_char(cs[0]) && is_sym_char(cs[1]) && is_dir_char(cs[2])
        && is_state_char(cs[3]) {
        lemma_spec_row_cont_len(cs.skip(4), acc.push((cs[1], cs[2], cs[3])));
    }
}

pub proof fn lemma_spec_row_len(cs: Seq<char>)
    ensures
        spec_row(cs) matches Some((rest, _)) ==> rest.len() + 3 <= cs.len(),
{
    if spec_row(cs) is Some {
        lemma_spec_row_cont_len(cs.skip(3), seq![(cs[0], cs[1], cs[2])]);
    }
}

/// After one row: consumes `<sep><sep><row>` groups as long as they stand at
/// the front of `cs`.
pub open spec fn spec_rows_cont(cs: Seq<char>, acc: Seq<Seq<Token>>) -> (Seq<char>, Seq<
    Seq<Token>,
>)
    decreases cs.len(),
    via spec_rows_cont_dec
{
    if cs.len() >= 2 && is_sep_char(cs[0]) && is_sep_char(cs[1]) && spec_row(cs.skip(2)) is Some {
        let (rest, row) = spec_row(cs.skip(2))->Some_0;
        spec_rows_cont(rest, acc.push(row))
    } else {
        (cs, acc)
    }
}

#[via_fn]
proof fn spec_rows_cont_dec(cs: Seq<char>, acc: Seq<Seq<Token>>) {
    if cs.len() >= 2 && is_sep_char(cs[0]) && is_sep_char(cs[1]) && spec_row(cs.skip(2)) is Some {
        lemma_spec_row_len(cs.skip(2));
    }
}

pub proof fn lemma_spec_rows_cont_acc(cs: Seq<char>, acc: Seq<Seq<Token>>)
    ensures
        spec_rows_cont(cs, acc).1.len() >= acc.len(),
    decreases cs.len(),
{
    if cs.len() >= 2 && is_sep_char(cs[0]) && is_sep_char(cs[1]) && spec_row(cs.skip(2)) is Some {
        lemma_spec_row_len(cs.skip(2));
        let (rest, row) = spec_row(cs.skip(2))->Some_0;
        lemma_spec_rows_cont_acc(rest, acc.push(row));
    }
}

/// The whole token grammar: one row, then double-separated further rows.
pub open spec fn spec_parse_instructions(cs: Seq<char>) -> Option<(Seq<char>, Seq<Seq<Token>>)> {
    match spec_row(cs) {
        None => None,
        Some((rest, row)) => Some(spec_rows_cont(rest, seq![row])),
    }
}

fn sym_char(c: char) -> (r: bool)
    ensures
        r == is_sym_char(c),
{
    ('0' <= c && c <= '9') || c == '.'
}

fn dir_char(c: char) -> (r: bool)
    ensures
        r == is_dir_char(c),
{
    c == 'L' || c == 'R' || c == '.'
}

fn state_char(c: char) -> (r: bool)
    ensures
        r == is_state_char(c),
{
    ('A' <= c && c <= 'Z') || c == '.'
}

fn sep_char(c: char) -> (r: bool)
    ensures
        r == is_sep_char(c),
{
    c == ' ' || c == '\t'
}

/// Reads one instruction token from the front of `s`.
pub fn instruction(s: &str) -> (r: Option<(&str, Token)>)
    ensures
        (r is Some) == (spec_instruction(s@) is Some),
        r matches Some((rest, t)) ==> spec_instruction(s@) == Some((rest@, t)),
{
    let n = s.unicode_len();
    if n < 3 {
        return None;
    }
    let c0 = s.get_char(0);
    let c1 = s.get_char(1);
    let c2 = s.get_char(2);
    if sym_char(c0) && dir_char(c1) && state_char(c2) {
        let rest = s.substring_char(3, n);
        proof {
            assert(rest@ =~= s@.skip(3));
        }
        Some((rest, (c0, c1, c2)))
    } else {
        None
    }
}

/// Reads one row of single-separated tokens from the front of `s`.
pub fn state_instructions(s: &str) -> (r: Option<(&str, Vec<Token>)>)
    ensures
        (r is Some) == (spec_row(s@) is Some),
        r matches Some((rest, toks)) ==> spec_row(s@) == Some((rest@, toks@)),
{
    let n = s.unicode_len();
    if n < 3 {
        return None;
    }
    let c0 = s.get_char(0);
    let c1 = s.get_char(1);
    let c2 = s.get_char(2);
    if !(sym_char(c0) && dir_char(c1) && state_char(c2)) {
        return None;
    }
    let mut toks: Vec<Token> = Vec::new();
    toks.push((c0, c1, c2));
    let mut i: usize = 3;
    proof {
        assert(spec_row(s@) == Some(spec_row_cont(s@.skip(3), seq![(c0, c1, c2)])));
    }
    loop
        invariant
            3 <= i <= n,
            n == s@.len(),
            spec_row(s@) is Some,
            spec_row(s@)->Some_0 == spec_row_cont(s@.skip(i as int), toks@),
        ensures
            3 <= i <= n,
            spec_row(s@)->Some_0 == (s@.skip(i as int), toks@),
        decreases n - i,
    {
        let ghost cs = s@.skip(i as int);
        if n - i >= 4 {
            let d0 = s.get_char(i);
            let d1 = s.get_char(i + 1);
            let d2 = s.get_char(i + 2);
            let d3 = s.get_char(i + 3);
            proof {
                assert(cs[0] == s@[i as int]);
                assert(cs[1] == s@[i + 1]);
                assert(cs[2] == s@[i + 2]);
                assert(cs[3] == s@[i + 3]);
            }
            if sep_char(d0) && sym_char(d1) && dir_char(d2) && state_char(d3) {
                toks.push((d1, d2, d3));
                proof {
                    assert(cs.skip(4) =~= s@.skip(i + 4));
                }
                i = i + 4;
            } else {
                proof {
                    assert(spec_row_cont(cs, toks@) == (cs, toks@));
                }
                break ;
            }
        } else {
            proof {
                assert(cs.len() == n - i < 4);
                assert(spec_row_cont(cs, toks@) == (cs, toks@));
            }
            break ;
        }
    }
    let rest = s.substring_char(i, n);
    proof {
        assert(rest@ =~= s@.skip(i as int));
    }
    Some((rest, toks))
}

/// Reads the whole instruction table: rows separated by two whitespace
/// characters.
pub fn parse_instructions(s: &str) -> (r: Option<(&str, Vec<Vec<Token>>)>)
    ensures
        (r is Some) == (spec_parse_instructions(s@) is Some),
        r matches Some((rest, rows)) ==> {
            let (srest, srows) = spec_parse_instructions(s@)->Some_0;
            &&& rest@ == srest
            &&& rows@.len() == srows.len()
            &&& forall|i: int| 0 <= i < srows.len() ==> rows@[i]@ == srows[i]
        },
{
    let first = state_instructions(s);
    let (mut cur, row0) = match first {
        None => {
            return None;
        },
        Some(p) => p,
    };
    let ghost srow0 = spec_row(s@)->Some_0.1;
    let mut rows: Vec<Vec<Token>> = Vec::new();
    rows.push(row0);
    let ghost mut srows: Seq<Seq<Token>> = seq![srow0];
    loop
        invariant
            spec_parse_instructions(s@) is Some,
            spec_parse_instructions(s@)->Some_0 == spec_rows_cont(cur@, srows),
            rows@.len() == srows.len(),
            forall|i: int| 0 <= i < srows.len() ==> rows@[i]@ == srows[i],
        ensures
            spec_parse_instructions(s@)->Some_0 == (cur@, srows),
            rows@.len() == srows.len(),
            forall|i: int| 0 <= i < srows.len() ==> rows@[i]@ == srows[i],
        decreases cur@.len(),
    {
        let ghost cs = cur@;
        let m = cur.unicode_len();
        if m >= 2 {
            let e0 = cur.get_char(0);
            let e1 = cur.get_char(1);
            if sep_char(e0) && sep_char(e1) {
                let tail = cur.substring_char(2, m);
                proof {
                    assert(tail@ =~= cur@.skip(2));
                }
                match state_instructions(tail) {
                    Some((rest, row)) => {
                        rows.push(row);
                        proof {
                            srows = srows.push(row@);
                            lemma_spec_row_len(cs.skip(2));
                        }
                        cur = rest;
                    },
                    None => {
                        proof {
                            assert(spec_rows_cont(cs, srows) == (cs, srows));
                        }
                        break ;
                    },
                }
            } else {
                proof {
                    assert(spec_rows_cont(cs, srows) == (cs, srows));
                }
                break ;
            }
        } else {
            proof {
                assert(spec_rows_cont(cs, srows) == (cs, srows));
            }
            break ;
        }
    }
    Some((cur, rows))
}

} // verus!
