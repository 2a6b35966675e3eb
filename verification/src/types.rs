//! Alphabet primitives: the head direction, and the printable names of
//! states and symbols.
//!
//! The engine itself represents a symbol as a `u8` below the symbol count of
//! the program (with `0` as the blank) and a state as a `u8` below the state
//! count, the count itself standing for the distinguished halt state.

use vstd::prelude::*;
use vstd::string::*;

verus! {

/// The two directions the head can move after a write.
#[derive(Debug, Clone, Copy, PartialEq, Eq, Structural)]
pub enum Direction {
    Left,
    Right,
}

/// The printable letter of a state: `A` onwards, `H` for the halt state.
pub open spec fn state_letter(state: u8, state_count: u8) -> char {
    if state == state_count {
        'H'
    } else if state == 0 {
        'A'
    } else if state == 1 {
        'B'
    } else if state == 2 {
        'C'
    } else if state == 3 {
        'D'
    } else if state == 4 {
        'E'
    } else {
        'F'
    }
}

/// The printable digit of a symbol.
pub open spec fn symbol_digit(symbol: u8) -> char {
    if symbol == 0 {
        '0'
    } else if symbol == 1 {
        '1'
    } else if symbol == 2 {
        '2'
    } else {
        '3'
    }
}

impl Direction {
    /// Reads a direction from its one-letter name.
    pub fn from_char(c: char) -> (r: Option<Direction>)
        ensures
            r == if c == 'L' {
                Some(Direction::Left)
            } else if c == 'R' {
                Some(Direction::Right)
            } else {
                None::<Direction>
            },
    {
        if c == 'L' {
            Some(Direction::Left)
        } else if c == 'R' {
            Some(Direction::Right)
        } else {
            None
        }
    }
}


/// A named state alphabet: each value knows the index the engine uses for
/// it, the halt state mapping to the state count itself.
pub trait State: Sized + Copy {
    spec fn count() -> int;

    spec fn spec_index(self) -> int;

    /// The state a machine starts in.
    fn initial_state() -> (r: Self)
        ensures
            r.spec_index() == 0,
    ;

    /// The distinguished halt state.
    fn halt() -> (r: Self)
        ensures
            r.spec_index() == Self::count(),
    ;

    /// The index the engine uses for this state.
    fn index(self) -> (r: u8)
        ensures
            r as int == self.spec_index(),
    ;

    /// The non-halt states in order.
    fn iter_states() -> (r: Vec<Self>)
        ensures
            r@.len() == Self::count(),
            forall|i: int| 0 <= i < r@.len() ==> (#[trigger] r@[i]).spec_index() == i,
    ;
}

/// A named symbol alphabet: each value knows the index the engine uses for
/// it, with the blank at index zero.
pub trait Symbol: Sized + Copy {
    spec fn count() -> int;

    spec fn spec_index(self) -> int;

    /// The blank symbol.
    fn zero() -> (r: Self)
        ensures
            r.spec_index() == 0,
    ;

    /// The index the engine uses for this symbol.
    fn index(self) -> (r: u8)
        ensures
            r as int == self.spec_index(),
    ;

    /// The symbols in order.
    fn iter_symbols() -> (r: Vec<Self>)
        ensures
            r@.len() == Self::count(),
            forall|i: int| 0 <= i < r@.len() ==> (#[trigger] r@[i]).spec_index() == i,
    ;
}

/// The states of a 2-state machine, with the halt state.
#[derive(Debug, Clone, Copy, PartialEq, Eq, PartialOrd, Ord, Structural)]
pub enum TwoState {
    A,
    B,
    H,
}

impl State for TwoState {
    open spec fn count() -> int {
        2
    }

    open spec fn spec_index(self) -> int {
        match self {
            TwoState::A => 0,
            TwoState::B => 1,
            TwoState::H => 2,
        }
    }

    fn initial_state() -> (r: Self) {
        TwoState::A
    }

    fn halt() -> (r: Self) {
        TwoState::H
    }

    fn index(self) -> (r: u8) {
        match self {
            TwoState::A => 0u8,
            TwoState::B => 1u8,
            TwoState::H => 2u8,
        }
    }

    fn iter_states() -> (r: Vec<Self>) {
        let r = vec![TwoState::A, TwoState::B];
        proof {
            assert(r@[0].spec_index() == 0);
            assert(r@[1].spec_index() == 1);
        }
        r
    }
}

/// The states of a 3-state machine, with the halt state.
#[derive(Debug, Clone, Copy, PartialEq, Eq, PartialOrd, Ord, Structural)]
pub enum ThreeState {
    A,
    B,
    C,
    H,
}

impl State for ThreeState {
    open spec fn count() -> int {
        3
    }

    open spec fn spec_index(self) -> int {
        match self {
            ThreeState::A => 0,
            ThreeState::B => 1,
            ThreeState::C => 2,
            ThreeState::H => 3,
        }
    }

    fn initial_state() -> (r: Self) {
        ThreeState::A
    }

    fn halt() -> (r: Self) {
        ThreeState::H
    }

    fn index(self) -> (r: u8) {
        match self {
            ThreeState::A => 0u8,
            ThreeState::B => 1u8,
            ThreeState::C => 2u8,
            ThreeState::H => 3u8,
        }
    }

    fn iter_states() -> (r: Vec<Self>) {
        let r = vec![ThreeState::A, ThreeState::B, ThreeState::C];
        proof {
            assert(r@[0].spec_index() == 0);
            assert(r@[1].spec_index() == 1);
            assert(r@[2].spec_index() == 2);
        }
        r
    }
}

/// The states of a 4-state machine, with the halt state.
#[derive(Debug, Clone, Copy, PartialEq, Eq, PartialOrd, Ord, Structural)]
pub enum FourState {
    A,
    B,
    C,
    D,
    H,
}

impl State for FourState {
    open spec fn count() -> int {
        4
    }

    open spec fn spec_index(self) -> int {
        match self {
            FourState::A => 0,
            FourState::B => 1,
            FourState::C => 2,
            FourState::D => 3,
            FourState::H => 4,
        }
    }

    fn initial_state() -> (r: Self) {
        FourState::A
    }

    fn halt() -> (r: Self) {
        FourState::H
    }

    fn index(self) -> (r: u8) {
        match self {
            FourState::A => 0u8,
            FourState::B => 1u8,
            FourState::C => 2u8,
            FourState::D => 3u8,
            FourState::H => 4u8,
        }
    }

    fn iter_states() -> (r: Vec<Self>) {
        let r = vec![FourState::A, FourState::B, FourState::C, FourState::D];
        proof {
            assert(r@[0].spec_index() == 0);
            assert(r@[1].spec_index() == 1);
            assert(r@[2].spec_index() == 2);
            assert(r@[3].spec_index() == 3);
        }
        r
    }
}

/// The states of a 5-state machine, with the halt state.
#[derive(Debug, Clone, Copy, PartialEq, Eq, PartialOrd, Ord, Structural)]
pub enum FiveState {
    A,
    B,
    C,
    D,
    E,
    H,
}

impl State for FiveState {
    open spec fn count() -> int {
        5
    }

    open spec fn spec_index(self) -> int {
        match self {
            FiveState::A => 0,
            FiveState::B => 1,
            FiveState::C => 2,
            FiveState::D => 3,
            FiveState::E => 4,
            FiveState::H => 5,
        }
    }

    fn initial_state() -> (r: Self) {
        FiveState::A
    }

    fn halt() -> (r: Self) {
        FiveState::H
    }

    fn index(self) -> (r: u8) {
        match self {
            FiveState::A => 0u8,
            FiveState::B => 1u8,
            FiveState::C => 2u8,
            FiveState::D => 3u8,
            FiveState::E => 4u8,
            FiveState::H => 5u8,
        }
    }

    fn iter_states() -> (r: Vec<Self>) {
        let r = vec![FiveState::A, FiveState::B, FiveState::C, FiveState::D, FiveState::E];
        proof {
            assert(r@[0].spec_index() == 0);
            assert(r@[1].spec_index() == 1);
            assert(r@[2].spec_index() == 2);
            assert(r@[3].spec_index() == 3);
            assert(r@[4].spec_index() == 4);
        }
        r
    }
}

/// The states of a 6-state machine, with the halt state.
#[derive(Debug, Clone, Copy, PartialEq, Eq, PartialOrd, Ord, Structural)]
pub enum SixState {
    A,
    B,
    C,
    D,
    E,
    F,
    H,
}

impl State for SixState {
    open spec fn count() -> int {
        6
    }

    open spec fn spec_index(self) -> int {
        match self {
            SixState::A => 0,
            SixState::B => 1,
            SixState::C => 2,
            SixState::D => 3,
            SixState::E => 4,
            SixState::F => 5,
            SixState::H => 6,
        }
    }

    fn initial_state() -> (r: Self) {
        SixState::A
    }

    fn halt() -> (r: Self) {
        SixState::H
    }

    fn index(self) -> (r: u8) {
        match self {
            SixState::A => 0u8,
            SixState::B => 1u8,
            SixState::C => 2u8,
            SixState::D => 3u8,
            SixState::E => 4u8,
            SixState::F => 5u8,
            SixState::H => 6u8,
        }
    }

    fn iter_states() -> (r: Vec<Self>) {
        let r = vec![SixState::A, SixState::B, SixState::C, SixState::D, SixState::E, SixState::F];
        proof {
            assert(r@[0].spec_index() == 0);
            assert(r@[1].spec_index() == 1);
            assert(r@[2].spec_index() == 2);
            assert(r@[3].spec_index() == 3);
            assert(r@[4].spec_index() == 4);
            assert(r@[5].spec_index() == 5);
        }
        r
    }
}

/// The symbols of a 2-symbol machine, the blank first.
#[derive(Debug, Clone, Copy, PartialEq, Eq, PartialOrd, Ord, Structural)]
pub enum TwoSymbol {
    Zero,
    One,
}

impl Symbol for TwoSymbol {
    open spec fn count() -> int {
        2
    }

    open spec fn spec_index(self) -> int {
        match self {
            TwoSymbol::Zero => 0,
            TwoSymbol::One => 1,
        }
    }

    fn zero() -> (r: Self) {
        TwoSymbol::Zero
    }

    fn index(self) -> (r: u8) {
        match self {
            TwoSymbol::Zero => 0u8,
            TwoSymbol::One => 1u8,
        }
    }

    fn iter_symbols() -> (r: Vec<Self>) {
        let r = vec![TwoSymbol::Zero, TwoSymbol::One];
        proof {
            assert(r@[0].spec_index() == 0);
            assert(r@[1].spec_index() == 1);
        }
        r
    }
}

/// The symbols of a 3-symbol machine, the blank first.
#[derive(Debug, Clone, Copy, PartialEq, Eq, PartialOrd, Ord, Structural)]
pub enum ThreeSymbol {
    Zero,
    One,
    Two,
}

impl Symbol for ThreeSymbol {
    open spec fn count() -> int {
        3
    }

    open spec fn spec_index(self) -> int {
        match self {
            ThreeSymbol::Zero => 0,
            ThreeSymbol::One => 1,
            ThreeSymbol::Two => 2,
        }
    }

    fn zero() -> (r: Self) {
        ThreeSymbol::Zero
    }

    fn index(self) -> (r: u8) {
        match self {
            ThreeSymbol::Zero => 0u8,
            ThreeSymbol::One => 1u8,
            ThreeSymbol::Two => 2u8,
        }
    }

    fn iter_symbols() -> (r: Vec<Self>) {
        let r = vec![ThreeSymbol::Zero, ThreeSymbol::One, ThreeSymbol::Two];
        proof {
            assert(r@[0].spec_index() == 0);
            assert(r@[1].spec_index() == 1);
            assert(r@[2].spec_index() == 2);
        }
        r
    }
}

/// The symbols of a 4-symbol machine, the blank first.
#[derive(Debug, Clone, Copy, PartialEq, Eq, PartialOrd, Ord, Structural)]
pub enum FourSymbol {
    Zero,
    One,
    Two,
    Three,
}

impl Symbol for FourSymbol {
    open spec fn count() -> int {
        4
    }

    open spec fn spec_index(self) -> int {
        match self {
            FourSymbol::Zero => 0,
            FourSymbol::One => 1,
            FourSymbol::Two => 2,
            FourSymbol::Three => 3,
        }
    }

    fn zero() -> (r: Self) {
        FourSymbol::Zero
    }

    fn index(self) -> (r: u8) {
        match self {
            FourSymbol::Zero => 0u8,
            FourSymbol::One => 1u8,
            FourSymbol::Two => 2u8,
            FourSymbol::Three => 3u8,
        }
    }

    fn iter_symbols() -> (r: Vec<Self>) {
        let r = vec![FourSymbol::Zero, FourSymbol::One, FourSymbol::Two, FourSymbol::Three];
        proof {
            assert(r@[0].spec_index() == 0);
            assert(r@[1].spec_index() == 1);
            assert(r@[2].spec_index() == 2);
            assert(r@[3].spec_index() == 3);
        }
        r
    }
}


impl core::str::FromStr for Direction {
    type Err = crate::program::ProgramParseError;

    fn from_str(s: &str) -> Result<Self, Self::Err> {
        if s.unicode_len() != 1 {
            return Err(crate::program::ProgramParseError("expected 'L' or 'R'".to_owned()));
        }
        match s.get_char(0) {
            'L' => Ok(Direction::Left),
            'R' => Ok(Direction::Right),
            _ => Err(crate::program::ProgramParseError("expected 'L' or 'R'".to_owned())),
        }
    }
}

impl core::str::FromStr for TwoState {
    type Err = crate::program::ProgramParseError;

    fn from_str(s: &str) -> Result<Self, Self::Err> {
        if s.unicode_len() != 1 {
            return Err(crate::program::ProgramParseError("expected a state letter up to B, or H".to_owned()));
        }
        match s.get_char(0) {
            'A' => Ok(TwoState::A),
            'B' => Ok(TwoState::B),
            'H' => Ok(TwoState::H),
            _ => Err(crate::program::ProgramParseError("expected a state letter up to B, or H".to_owned())),
        }
    }
}

impl core::str::FromStr for ThreeState {
    type Err = crate::program::ProgramParseError;

    fn from_str(s: &str) -> Result<Self, Self::Err> {
        if s.unicode_len() != 1 {
            return Err(crate::program::ProgramParseError("expected a state letter up to C, or H".to_owned()));
        }
        match s.get_char(0) {
            'A' => Ok(ThreeState::A),
            'B' => Ok(ThreeState::B),
            'C' => Ok(ThreeState::C),
            'H' => Ok(ThreeState::H),
            _ => Err(crate::program::ProgramParseError("expected a state letter up to C, or H".to_owned())),
        }
    }
}

impl core::str::FromStr for FourState {
    type Err = crate::program::ProgramParseError;

    fn from_str(s: &str) -> Result<Self, Self::Err> {
        if s.unicode_len() != 1 {
            return Err(crate::program::ProgramParseError("expected a state letter up to D, or H".to_owned()));
        }
        match s.get_char(0) {
            'A' => Ok(FourState::A),
            'B' => Ok(FourState::B),
            'C' => Ok(FourState::C),
            'D' => Ok(FourState::D),
            'H' => Ok(FourState::H),
            _ => Err(crate::program::ProgramParseError("expected a state letter up to D, or H".to_owned())),
        }
    }
}

impl core::str::FromStr for FiveState {
    type Err = crate::program::ProgramParseError;

    fn from_str(s: &str) -> Result<Self, Self::Err> {
        if s.unicode_len() != 1 {
            return Err(crate::program::ProgramParseError("expected a state letter up to E, or H".to_owned()));
        }
        match s.get_char(0) {
            'A' => Ok(FiveState::A),
            'B' => Ok(FiveState::B),
            'C' => Ok(FiveState::C),
            'D' => Ok(FiveState::D),
            'E' => Ok(FiveState::E),
            'H' => Ok(FiveState::H),
            _ => Err(crate::program::ProgramParseError("expected a state letter up to E, or H".to_owned())),
        }
    }
}

impl core::str::FromStr for SixState {
    type Err = crate::program::ProgramParseError;

    fn from_str(s: &str) -> Result<Self, Self::Err> {
        if s.unicode_len() != 1 {
            return Err(crate::program::ProgramParseError("expected a state letter up to F, or H".to_owned()));
        }
        match s.get_char(0) {
            'A' => Ok(SixState::A),
            'B' => Ok(SixState::B),
            'C' => Ok(SixState::C),
            'D' => Ok(SixState::D),
            'E' => Ok(SixState::E),
            'F' => Ok(SixState::F),
            'H' => Ok(SixState::H),
            _ => Err(crate::program::ProgramParseError("expected a state letter up to F, or H".to_owned())),
        }
    }
}

impl core::str::FromStr for TwoSymbol {
    type Err = crate::program::ProgramParseError;

    fn from_str(s: &str) -> Result<Self, Self::Err> {
        if s.unicode_len() != 1 {
            return Err(crate::program::ProgramParseError("expected a symbol digit up to 1".to_owned()));
        }
        match s.get_char(0) {
            '0' => Ok(TwoSymbol::Zero),
            '1' => Ok(TwoSymbol::One),
            _ => Err(crate::program::ProgramParseError("expected a symbol digit up to 1".to_owned())),
        }
    }
}

impl core::str::FromStr for ThreeSymbol {
    type Err = crate::program::ProgramParseError;

    fn from_str(s: &str) -> Result<Self, Self::Err> {
        if s.unicode_len() != 1 {
            return Err(crate::program::ProgramParseError("expected a symbol digit up to 2".to_owned()));
        }
        match s.get_char(0) {
            '0' => Ok(ThreeSymbol::Zero),
            '1' => Ok(ThreeSymbol::One),
            '2' => Ok(ThreeSymbol::Two),
            _ => Err(crate::program::ProgramParseError("expected a symbol digit up to 2".to_owned())),
        }
    }
}

impl core::str::FromStr for FourSymbol {
    type Err = crate::program::ProgramParseError;

    fn from_str(s: &str) -> Result<Self, Self::Err> {
        if s.unicode_len() != 1 {
            return Err(crate::program::ProgramParseError("expected a symbol digit up to 3".to_owned()));
        }
        match s.get_char(0) {
            '0' => Ok(FourSymbol::Zero),
            '1' => Ok(FourSymbol::One),
            '2' => Ok(FourSymbol::Two),
            '3' => Ok(FourSymbol::Three),
            _ => Err(crate::program::ProgramParseError("expected a symbol digit up to 3".to_owned())),
        }
    }
}

} // verus!
