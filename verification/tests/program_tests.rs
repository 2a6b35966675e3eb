use lin_rado_turing::program::{parse_program, ProgramT};
use lin_rado_turing::types::Direction;

#[test]
fn test_program_parse_2_2_info() {
    let program = parse_program("1RB 1LB  1LA 1RH");

    assert!(program.is_ok());

    let prog = program.unwrap();

    assert!(matches!(prog, ProgramT::TwoTwo(_)));

    if let ProgramT::TwoTwo(prog) = prog {
        // state A reading 0 steps to state B, writing 1, moving right
        assert_eq!(prog.instruction(0, 0), Some((1, 1, Direction::Right)));
    }
}

#[test]
fn test_program_parse_too_many() {
    let program = parse_program("1RB 0LA  1RB 0LA  1LB");

    assert!(program.is_err());
}

#[test]
fn test_program_undefined() {
    let program = parse_program("1RB ...  1LA 1RH");

    assert!(program.is_ok());

    let prog = program.unwrap();

    assert!(matches!(prog, ProgramT::TwoTwo(_)));
    if let ProgramT::TwoTwo(prog) = prog {
        // state A reading 1 is the undefined entry
        assert_eq!(prog.instruction(0, 1), None);
    }
}

#[test]
fn test_program_flat_shapes_inferred() {
    // four tokens, largest digit 1: two states over two symbols
    assert!(matches!(
        parse_program("1RB 1LB 1LA 1RH"),
        Ok(ProgramT::TwoTwo(_))
    ));
    // six tokens, largest digit 1: three states over two symbols
    assert!(matches!(
        parse_program("1RB 1RH 1LB 0RC 1LC 1LA"),
        Ok(ProgramT::ThreeTwo(_))
    ));
    // six tokens, largest digit 2: two states over three symbols
    assert!(matches!(
        parse_program("1RB 2LB 1RA 2LB 2LA 0RA"),
        Ok(ProgramT::TwoThree(_))
    ));
    // eight tokens, largest digit 3: two states over four symbols
    assert!(matches!(
        parse_program("1RB 3LA 1LA 1RA 2LA 1RH 3RA 3RB"),
        Ok(ProgramT::TwoFour(_))
    ));
    // twelve tokens, largest digit 1: six states over two symbols
    assert!(matches!(
        parse_program("1RB 1LH 0RC 1RC 0RD 0RC 1RE 1LA 0RF 0RE 1LF 1LD"),
        Ok(ProgramT::SixTwo(_))
    ));
}

#[test]
fn test_program_rejects_bad_shapes() {
    // one row of two tokens: one state is not a supported shape
    assert!(parse_program("1RB 0LA").is_err());
    // five tokens over two symbols do not divide evenly
    assert!(parse_program("1RB 0LA 1RB 0LA 1LB").is_err());
    // a written digit of 4 would need five symbols
    assert!(parse_program("1RB 4LA 1LA 1RA 2LA 1RH 3RA 3RB").is_err());
    // trailing unparsable input
    assert!(parse_program("1RB 1LB  1LA 1RH x").is_err());
    // a partial dots token is invalid
    assert!(parse_program("1RB 1.B  1LA 1RH").is_err());
    // a next state outside the inferred range
    assert!(parse_program("1RB 1LB  1LA 1RC").is_err());
}

#[test]
fn test_program_counts() {
    if let Ok(pt) = parse_program("1RB 1RH 1LB 0RC 1LC 1LA") {
        let p = pt.program();
        assert_eq!(p.states(), 3);
        assert_eq!(p.symbols(), 2);
    } else {
        panic!("expected a parse");
    }
}
