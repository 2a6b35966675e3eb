use lin_rado_turing::parse::{instruction, parse_instructions, state_instructions};

#[test]
fn test_instruction() {
    assert_eq!(instruction("1RB"), Some(("", ('1', 'R', 'B'))));
}

#[test]
fn test_state_instruction() {
    assert_eq!(
        state_instructions("1RB 0LA  1RB 0LA"),
        Some(("  1RB 0LA", vec![('1', 'R', 'B'), ('0', 'L', 'A')]))
    );
}

#[test]
fn test_instructions() {
    assert_eq!(
        parse_instructions("1RB 0LA  1RB 0LA"),
        Some((
            "",
            vec![
                vec![('1', 'R', 'B'), ('0', 'L', 'A')],
                vec![('1', 'R', 'B'), ('0', 'L', 'A')]
            ]
        ))
    );
}

#[test]
fn test_instruction_rejects_bad_direction() {
    assert_eq!(instruction("1XB"), None);
    assert_eq!(instruction("R1B"), None);
    assert_eq!(instruction("1R"), None);
}

#[test]
fn test_instruction_accepts_dots() {
    assert_eq!(instruction("..."), Some(("", ('.', '.', '.'))));
}

#[test]
fn test_state_instructions_single_token() {
    assert_eq!(
        state_instructions("1RB"),
        Some(("", vec![('1', 'R', 'B')]))
    );
}

#[test]
fn test_parse_instructions_rejects_empty() {
    assert_eq!(parse_instructions(""), None);
}
