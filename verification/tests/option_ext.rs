use lol_hack::option_ext::{FilterOption, OrDefault};
use lol_hack::HackMethod;

#[test]
fn filter_opt_keeps_what_the_test_accepts() {
    assert_eq!(Some(4).filter_opt(|v| v % 2 == 0), Some(4));
    assert_eq!(Some(5).filter_opt(|v| v % 2 == 0), None);
    assert_eq!(None::<i32>.filter_opt(|v| v % 2 == 0), None);
}

#[test]
fn filter_opt_does_not_ask_about_nothing() {
    let kept = None::<i32>.filter_opt(|_| panic!("nothing to test"));
    assert_eq!(kept, None);
}

#[test]
fn or_default_fills_in_the_default() {
    assert_eq!(Some(7).or_default(), 7);
    assert_eq!(None::<i32>.or_default(), 0);
    assert_eq!(Some(HackMethod::GiveCore).or_default(), HackMethod::GiveCore);
    assert_eq!(None::<HackMethod>.or_default(), HackMethod::GiveCompat);
}
