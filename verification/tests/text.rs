use lol_hack::text::{chars_of, same_chars, same_text};

#[test]
fn chars_of_gives_the_characters_in_order() {
    assert_eq!(chars_of(""), Vec::<char>::new());
    assert_eq!(chars_of("a b"), vec!['a', ' ', 'b']);
    assert_eq!(chars_of("é\u{3000}z"), vec!['é', '\u{3000}', 'z']);
}

#[test]
fn same_text_compares_every_character() {
    assert!(same_text("", ""));
    assert!(same_text("core", "core"));
    assert!(!same_text("core", "Core"));
    assert!(!same_text("core", "cor"));
    assert!(!same_text("cor", "core"));
    assert!(!same_text("core", "corf"));
}

#[test]
fn same_chars_compares_a_part_of_the_first_text() {
    let a = ['x', 'a', 'b', 'c', 'y'];
    assert!(same_chars(&a, 1, &['a', 'b', 'c']));
    assert!(!same_chars(&a, 0, &['a', 'b', 'c']));
    assert!(!same_chars(&a, 1, &['a', 'b', 'd']));
    assert!(same_chars(&a, 5, &[]));
    assert!(same_chars(&a, 0, &a));
}
