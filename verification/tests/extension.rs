use lol_hack::extension::is_whitespace;
use lol_hack::{glxdrv_has_extension, has_extension};

#[test]
fn a_name_in_the_list_is_found() {
    assert!(has_extension("GL_ARB_foo GL_ARB_bar", "GL_ARB_bar"));
    assert!(has_extension("GL_ARB_foo GL_ARB_bar", "GL_ARB_foo"));
}

#[test]
fn a_part_of_a_name_is_not_found() {
    assert!(!has_extension("GL_ARB_foobar", "GL_ARB_foo"));
    assert!(!has_extension("GL_ARB_foobar", "foobar"));
    assert!(!has_extension("GL_ARB_foobar", "ARB"));
    assert!(!has_extension("GL_ARB_foo", "GL_ARB_foobar"));
}

#[test]
fn names_are_compared_with_their_case() {
    assert!(!has_extension("GL_ARB_foo GL_ARB_bar", "gl_arb_bar"));
    assert!(!has_extension("GL_ARB_foo GL_ARB_bar", "GL_ARB_BAR"));
}

#[test]
fn any_run_of_white_space_parts_the_names() {
    let list = "  GLX_a\t\tGLX_b\n GLX_c\r\nGLX_d\u{a0}GLX_e\u{3000}\u{2003}GLX_f   ";
    for name in ["GLX_a", "GLX_b", "GLX_c", "GLX_d", "GLX_e", "GLX_f"] {
        assert!(has_extension(list, name), "{}", name);
    }
    assert!(!has_extension(list, "GLX_g"));
    assert!(!has_extension(list, "GLX_a\t\tGLX_b"));
}

#[test]
fn an_empty_name_is_in_no_list() {
    assert!(!has_extension("", ""));
    assert!(!has_extension("   ", ""));
    assert!(!has_extension("GL_ARB_foo  GL_ARB_bar", ""));
}

#[test]
fn a_name_with_white_space_is_in_no_list() {
    assert!(!has_extension("GL_ARB_foo GL_ARB_bar", "GL_ARB_foo GL_ARB_bar"));
    assert!(!has_extension("GL_ARB_foo GL_ARB_bar", " GL_ARB_bar"));
    assert!(!has_extension("GL_ARB_foo GL_ARB_bar", "GL_ARB_foo "));
}

#[test]
fn an_empty_list_holds_no_name() {
    assert!(!has_extension("", "GL_ARB_foo"));
    assert!(!has_extension(" \t\n", "GL_ARB_foo"));
}

#[test]
fn the_only_name_of_a_list_is_found() {
    assert!(has_extension("GL_ARB_foo", "GL_ARB_foo"));
    assert!(has_extension("x", "x"));
    assert!(has_extension(" x", "x"));
    assert!(has_extension("x ", "x"));
}

#[test]
fn names_may_hold_any_other_character() {
    assert!(has_extension("größe naïve\u{200b}x", "größe"));
    assert!(has_extension("größe naïve\u{200b}x", "naïve\u{200b}x"));
    assert!(!has_extension("größe naïve\u{200b}x", "naïve"));
}

#[test]
fn has_extension_agrees_with_splitting_on_white_space() {
    let lists = ["", " ", "a", "a b", " a  b ", "ab a", "a\tb\nc", "a\u{85}b", "b a b", "abc ab a"];
    let names = ["", " ", "a", "b", "c", "ab", "abc", "a b", "a\u{85}b"];
    for list in lists {
        for name in names {
            let expected = list.split_whitespace().any(|word| word == name);
            assert_eq!(has_extension(list, name), expected, "{:?} in {:?}", name, list);
        }
    }
}

#[test]
fn white_space_is_what_the_standard_library_calls_so() {
    for code in 0..=0x10FFFFu32 {
        if let Some(c) = char::from_u32(code) {
            assert_eq!(is_whitespace(c), c.is_whitespace(), "U+{:04X}", code);
        }
    }
}

#[test]
fn the_driver_gets_one_or_zero() {
    assert_eq!(glxdrv_has_extension("GL_ARB_foo GL_ARB_bar", "GL_ARB_bar"), 1);
    assert_eq!(glxdrv_has_extension("GL_ARB_foobar", "GL_ARB_foo"), 0);
    assert_eq!(glxdrv_has_extension("", ""), 0);
}
