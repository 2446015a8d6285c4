use lol_hack::Attrib;

#[test]
fn a_record_holds_its_key_and_value() {
    let attr = Attrib::new(0x2091, 3).unwrap();
    assert_eq!(attr.key(), 0x2091);
    assert_eq!(attr.value(), 3);
}

#[test]
fn no_record_has_the_terminator_key() {
    assert_eq!(Attrib::new(0, 0), None);
    assert_eq!(Attrib::new(0, 17), None);
}

#[test]
fn every_other_key_makes_a_record() {
    for key in [1, -1, i32::MIN, i32::MAX, 0x9126] {
        for value in [0, 1, -1, i32::MIN, i32::MAX] {
            let attr = Attrib::new(key, value).unwrap();
            assert_eq!((attr.key(), attr.value()), (key, value));
        }
    }
}

#[test]
fn set_overwrites_the_value_and_keeps_the_key() {
    let mut attr = Attrib::new(7, 1).unwrap();
    attr.set(9);
    assert_eq!((attr.key(), attr.value()), (7, 9));
    attr.set(0);
    assert_eq!((attr.key(), attr.value()), (7, 0));
}

#[test]
fn records_are_equal_by_key_and_value() {
    assert_eq!(Attrib::new(7, 1), Attrib::new(7, 1));
    assert_ne!(Attrib::new(7, 1), Attrib::new(7, 2));
    assert_ne!(Attrib::new(7, 1), Attrib::new(8, 1));
}
