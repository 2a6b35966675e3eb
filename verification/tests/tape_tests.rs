use lin_rado_turing::tape::{ITape, SSTape, Tape};
use lin_rado_turing::types::Direction;

#[test]
fn test_tape_fresh_is_blank() {
    let tape = Tape::default();
    assert_eq!(tape.size(), 1);
    assert_eq!(tape.read(0), Some(0));
    assert_eq!(tape.read(1), None);
    assert_eq!(tape.marks(), 0);
}

#[test]
fn test_tape_blank_extension() {
    // positions never written read blank, inside and outside the window
    let mut tape = Tape::default();
    tape.write(0, 2);
    tape.write(1, 1);
    tape.write(1, 0);
    assert_eq!(tape.read(0), Some(2));
    assert_eq!(tape.read(1), Some(0));
    assert_eq!(tape.iter_between(-3, 0), vec![0, 0, 0]);
    assert_eq!(tape.iter_between(2, 5), vec![0, 0, 0]);
}

#[test]
fn test_tape_windows() {
    let mut tape = Tape::default();
    tape.write(0, 1);
    tape.write(1, 2);
    tape.write(2, 3);
    assert_eq!(tape.iter_to(2), vec![1, 2]);
    assert_eq!(tape.iter_to(5), vec![1, 2, 3, 0, 0]);
    assert_eq!(tape.iter_from(-2), vec![0, 0, 1, 2, 3]);
    assert_eq!(tape.iter_from(1), vec![2, 3]);
    assert_eq!(tape.iter_between(-1, 4), vec![0, 1, 2, 3, 0]);
    assert_eq!(tape.iter(), vec![1, 2, 3]);
    assert_eq!(tape.size(), 3);
    assert_eq!(tape.marks(), 3);
}

#[test]
fn test_tape_insert_shifts() {
    let mut tape = Tape::default();
    tape.write(0, 1);
    tape.insert();
    assert_eq!(tape.iter(), vec![0, 1]);
    assert_eq!(tape.marks(), 1);
}

#[test]
fn test_tape_write_past_end_appends() {
    let mut tape = Tape::default();
    tape.write(7, 3);
    assert_eq!(tape.iter(), vec![0, 3]);
}

#[test]
fn test_tape_duplicate() {
    let mut tape = Tape::default();
    tape.write(0, 1);
    let copy = tape.duplicate();
    tape.write(0, 2);
    assert_eq!(copy.read(0), Some(1));
    assert_eq!(tape.read(0), Some(2));
}

#[test]
fn test_sstape_fresh() {
    let tape = SSTape::default();
    assert_eq!(tape.read(), 0);
    assert_eq!(tape.marks(), 0);
}

#[test]
fn test_sstape_write_and_step() {
    let mut tape = SSTape::default();
    // write 1, step right: head lands on a fresh blank
    tape.write_symbol(Direction::Right, 1);
    assert_eq!(tape.read(), 0);
    assert_eq!(tape.marks(), 1);
    // write 2, step left: head returns to the 1
    tape.write_symbol(Direction::Left, 2);
    assert_eq!(tape.read(), 1);
    assert_eq!(tape.marks(), 2);
    // write 0 over the 1, step left: the window grows with a blank
    tape.write_symbol(Direction::Left, 0);
    assert_eq!(tape.read(), 0);
    assert_eq!(tape.marks(), 1);
}
