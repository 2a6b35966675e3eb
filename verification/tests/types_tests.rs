use std::str::FromStr;

use lin_rado_turing::types::{
    Direction, FiveState, FourState, FourSymbol, SixState, State, Symbol, ThreeState,
    ThreeSymbol, TwoState, TwoSymbol,
};

#[test]
fn test_direction_from_char() {
    assert_eq!(Direction::from_char('L'), Some(Direction::Left));
    assert_eq!(Direction::from_char('R'), Some(Direction::Right));
    assert_eq!(Direction::from_char('.'), None);
}

#[test]
fn test_direction_from_str() {
    assert_eq!(Direction::from_str("L"), Ok(Direction::Left));
    assert_eq!(Direction::from_str("R"), Ok(Direction::Right));
    assert!(Direction::from_str("X").is_err());
    assert!(Direction::from_str("LL").is_err());
}

#[test]
fn test_state_alphabets() {
    assert_eq!(TwoState::initial_state(), TwoState::A);
    assert_eq!(TwoState::halt(), TwoState::H);
    assert_eq!(TwoState::iter_states(), vec![TwoState::A, TwoState::B]);
    assert_eq!(TwoState::H.index(), 2);

    assert_eq!(ThreeState::from_str("C"), Ok(ThreeState::C));
    assert!(ThreeState::from_str("D").is_err());
    assert_eq!(ThreeState::halt().index(), 3);

    assert_eq!(FourState::iter_states().len(), 4);
    assert_eq!(FiveState::from_str("E"), Ok(FiveState::E));
    assert_eq!(SixState::from_str("F"), Ok(SixState::F));
    assert_eq!(SixState::halt().index(), 6);
}

#[test]
fn test_symbol_alphabets() {
    assert_eq!(TwoSymbol::zero(), TwoSymbol::Zero);
    assert_eq!(TwoSymbol::iter_symbols(), vec![TwoSymbol::Zero, TwoSymbol::One]);
    assert_eq!(TwoSymbol::from_str("1"), Ok(TwoSymbol::One));
    assert!(TwoSymbol::from_str("2").is_err());

    assert_eq!(ThreeSymbol::from_str("2"), Ok(ThreeSymbol::Two));
    assert_eq!(FourSymbol::from_str("3"), Ok(FourSymbol::Three));
    assert_eq!(FourSymbol::Three.index(), 3);
    assert_eq!(FourSymbol::zero().index(), 0);
}
