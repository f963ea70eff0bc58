use rust_system::letters::LettersCount;

#[test]
fn counts_the_letter() {
    assert_eq!("__dead_beef__".letters_count('d'), 2);
    assert_eq!("__dead_beef__".letters_count('e'), 3);
    assert_eq!("__dead_beef__".letters_count('_'), 5);
}

#[test]
fn counts_nothing_where_the_letter_is_missing() {
    assert_eq!("__dead_beef__".letters_count('x'), 0);
    assert_eq!("".letters_count('d'), 0);
}

#[test]
fn counts_characters_not_bytes() {
    assert_eq!("ééé".letters_count('é'), 3);
}
