use autograder_rust::dates::{decode_key, numeric_choice, picker_step, PickerKey, PickerStep};

#[test]
fn decode_key_recognizes_the_picker_keys() {
    assert_eq!(decode_key(&[0x0d, 0, 0]), PickerKey::Enter);
    assert_eq!(decode_key(&[0x0a, 0, 0]), PickerKey::Enter);
    assert_eq!(decode_key(&[0x1b, 0x5b, 0x41]), PickerKey::Up);
    assert_eq!(decode_key(&[0x1b, 0x5b, 0x42]), PickerKey::Down);
    assert_eq!(decode_key(&[b'q', 0, 0]), PickerKey::Quit);
    assert_eq!(decode_key(&[b'x', 0, 0]), PickerKey::Other);
    assert_eq!(decode_key(&[0x1b, 0x5b, 0x43]), PickerKey::Other);
}

#[test]
fn picker_moves_stop_at_the_ends() {
    assert_eq!(picker_step(0, 3, PickerKey::Up), PickerStep::Moved(0));
    assert_eq!(picker_step(1, 3, PickerKey::Up), PickerStep::Moved(0));
    assert_eq!(picker_step(2, 3, PickerKey::Down), PickerStep::Moved(2));
    assert_eq!(picker_step(1, 3, PickerKey::Down), PickerStep::Moved(2));
    assert_eq!(picker_step(1, 3, PickerKey::Enter), PickerStep::Accept(1));
    assert_eq!(picker_step(1, 3, PickerKey::Quit), PickerStep::Cancel);
    assert_eq!(picker_step(1, 3, PickerKey::Other), PickerStep::Moved(1));
}

#[test]
fn numeric_choice_accepts_only_in_range_numbers() {
    assert_eq!(numeric_choice("1\n", 3), Some(0));
    assert_eq!(numeric_choice(" 3 ", 3), Some(2));
    assert_eq!(numeric_choice("0", 3), None);
    assert_eq!(numeric_choice("4", 3), None);
    assert_eq!(numeric_choice("", 3), None);
    assert_eq!(numeric_choice("two", 3), None);
    assert_eq!(numeric_choice("99999999999999999999999999", 3), None);
}
