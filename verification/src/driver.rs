//! The one-call driver: parse a program, run it on a blank tape, and report
//! the outcome as a flat record with one field per terminal condition.

use vstd::prelude::*;
use vstd::string::*;

use crate::machine::{Halt, HaltReason, Machine};
use crate::model::{run_result, tape_with_input, HaltView, ReasonView};
use crate::program::{parse_program, spec_parse_program, ProgramParseError};

verus! {

/// The largest step budget a blank-tape run accepts; beyond it the
/// detector's signed 64-bit window arithmetic could leave its range. On
/// narrower machine words the word itself binds first.
pub const MAX_RUN_LIMIT: u64 = 0x7ff_ffff_ffff_fffd;

/// What a [`MachineResult`] means.
pub ghost struct MachineResultView {
    pub prog: Seq<char>,
    pub undfnd: Option<(int, Seq<char>)>,
    pub linrec: Option<int>,
    pub qsihlt: Option<int>,
    pub blanks: Option<int>,
    pub xlimit: Option<int>,
}

/// The outcome of one run, flattened: the program string and one populated
/// field for the terminal condition (none for a proper halt).
#[derive(Debug, Clone, PartialEq)]
pub struct MachineResult {
    pub prog: String,
    pub undfnd: Option<(usize, String)>,
    pub linrec: Option<usize>,
    pub qsihlt: Option<usize>,
    pub blanks: Option<usize>,
    pub xlimit: Option<usize>,
}

impl View for MachineResult {
    type V = MachineResultView;

    open spec fn view(&self) -> MachineResultView {
        MachineResultView {
            prog: self.prog@,
            undfnd: match self.undfnd {
                None => None,
                Some((st, ref d)) => Some((st as int, d@)),
            },
            linrec: match self.linrec {
                None => None,
                Some(v) => Some(v as int),
            },
            qsihlt: match self.qsihlt {
                None => None,
                Some(v) => Some(v as int),
            },
            blanks: match self.blanks {
                None => None,
                Some(v) => Some(v as int),
            },
            xlimit: match self.xlimit {
                None => None,
                Some(v) => Some(v as int),
            },
        }
    }
}

/// The record a halt flattens to.
pub open spec fn result_of(prog: Seq<char>, h: HaltView) -> MachineResultView {
    match h.reason {
        ReasonView::Halt => MachineResultView {
            prog,
            undfnd: None,
            linrec: None,
            qsihlt: None,
            blanks: None,
            xlimit: None,
        },
        ReasonView::Recurr(p) => MachineResultView {
            prog,
            undfnd: None,
            linrec: Some(p),
            qsihlt: None,
            blanks: None,
            xlimit: None,
        },
        ReasonView::Quasihalt(p) => MachineResultView {
            prog,
            undfnd: None,
            linrec: None,
            qsihlt: Some(p),
            blanks: None,
            xlimit: None,
        },
        ReasonView::Blanking => MachineResultView {
            prog,
            undfnd: None,
            linrec: None,
            qsihlt: None,
            blanks: Some(h.steps),
            xlimit: None,
        },
        ReasonView::XLimit => MachineResultView {
            prog,
            undfnd: None,
            linrec: None,
            qsihlt: None,
            blanks: None,
            xlimit: Some(h.steps),
        },
        ReasonView::Undefined(d) => MachineResultView {
            prog,
            undfnd: Some((h.steps, d)),
            linrec: None,
            qsihlt: None,
            blanks: None,
            xlimit: None,
        },
    }
}

impl MachineResult {
    /// Flattens a committed halt into a result record.
    pub fn of_halt(prog_str: &str, halt: &Halt) -> (r: MachineResult)
        ensures
            r@ == result_of(prog_str@, halt@),
    {
        let prog = prog_str.to_owned();
        match &halt.reason {
            HaltReason::Halt => MachineResult {
                prog,
                undfnd: None,
                linrec: None,
                qsihlt: None,
                blanks: None,
                xlimit: None,
            },
            HaltReason::Recurr(p) => MachineResult {
                prog,
                undfnd: None,
                linrec: Some(*p),
                qsihlt: None,
                blanks: None,
                xlimit: None,
            },
            HaltReason::Quasihalt(p) => MachineResult {
                prog,
                undfnd: None,
                linrec: None,
                qsihlt: Some(*p),
                blanks: None,
                xlimit: None,
            },
            HaltReason::Blanking => MachineResult {
                prog,
                undfnd: None,
                linrec: None,
                qsihlt: None,
                blanks: Some(halt.steps),
                xlimit: None,
            },
            HaltReason::XLimit => MachineResult {
                prog,
                undfnd: None,
                linrec: None,
                qsihlt: None,
                blanks: None,
                xlimit: Some(halt.steps),
            },
            HaltReason::Undefined(d) => MachineResult {
                prog,
                undfnd: Some((halt.steps, d.clone())),
                linrec: None,
                qsihlt: None,
                blanks: None,
                xlimit: None,
            },
        }
    }
}

/// Parses a program and runs it on a blank tape under the given step budget,
/// with the recurrence detector at the given threshold and the blanking
/// check from step zero when asked. The `tape` and `samples` arguments are
/// accepted for interface compatibility and ignored.
pub fn run_bb(
    prog: &str,
    tape: Vec<i64>,
    x_limit: usize,
    check_rec: Option<usize>,
    check_blanks: bool,
    samples: Vec<i64>,
) -> (r: Result<MachineResult, ProgramParseError>)
    ensures
        (r is Ok) == (spec_parse_program(prog@) is Some && x_limit <= MAX_RUN_LIMIT && 2 * x_limit
            + 5 <= usize::MAX),
        r matches Ok(mr) ==> ({
            let p = spec_parse_program(prog@)->Some_0;
            let blank = if check_blanks {
                Some(0usize)
            } else {
                None
            };
            let rr = run_result(p, 0, seq![0u8], x_limit, check_rec, blank, false);
            mr@ == result_of(prog@, rr.halt->Some_0)
        }),
{
    let _ = tape;
    let _ = samples;
    if x_limit as u64 > MAX_RUN_LIMIT || (x_limit as u64) * 2 + 5 > usize::MAX as u64 {
        return Err(ProgramParseError(String::from_str("step limit too large")));
    }
    proof {
        assert(crate::model::run_bounds_ok(1, x_limit as int));
    }
    let blank = if check_blanks {
        Some(0usize)
    } else {
        None
    };
    let pt = match parse_program(prog) {
        Ok(pt) => pt,
        Err(e) => {
            return Err(e);
        },
    };
    let program = pt.into_program();
    let mut machine = Machine::new(program);
    proof {
        assert(machine@.tape.len() + Seq::<u8>::empty().len() as int == 1);
    }
    machine.run_until_halt(Vec::new(), x_limit, check_rec, blank, false);
    proof {
        assert(tape_with_input(seq![0u8], Seq::<u8>::empty()) =~= seq![0u8]);
    }
    match machine.halt() {
        Some(h) => Ok(MachineResult::of_halt(prog, h)),
        None => {
            proof {
                assert(false);
            }
            Err(ProgramParseError(String::from_str("run did not commit a halt")))
        },
    }
}

} // verus!
