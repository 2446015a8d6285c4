use lol_hack::init::{
    executable_name, GAME_EXECUTABLE, MESA_GL_VERSION_OVERRIDE, VERSION_OVERRIDE_VALUE,
};
use lol_hack::{glxdrv_init_lol, InitAction};

#[test]
fn the_game_gets_the_override() {
    let path = "C:\\Riot Games\\League of Legends\\Game\\League of Legends.exe";
    assert_eq!(glxdrv_init_lol(Some(path)), InitAction::SetOverride);
    assert_eq!(glxdrv_init_lol(Some("League of Legends.exe")), InitAction::SetOverride);
    assert_eq!(glxdrv_init_lol(Some("\\League of Legends.exe")), InitAction::SetOverride);
}

#[test]
fn another_program_is_traced_by_its_name() {
    assert_eq!(
        glxdrv_init_lol(Some("C:\\windows\\system32\\notepad.exe")),
        InitAction::Trace(Some("notepad.exe"))
    );
    assert_eq!(glxdrv_init_lol(Some("notepad.exe")), InitAction::Trace(Some("notepad.exe")));
}

#[test]
fn the_name_is_compared_as_a_whole_and_with_its_case() {
    assert_eq!(
        glxdrv_init_lol(Some("C:\\league of legends.exe")),
        InitAction::Trace(Some("league of legends.exe"))
    );
    assert_eq!(
        glxdrv_init_lol(Some("C:\\My League of Legends.exe")),
        InitAction::Trace(Some("My League of Legends.exe"))
    );
    assert_eq!(
        glxdrv_init_lol(Some("C:\\League of Legends.exe.bak")),
        InitAction::Trace(Some("League of Legends.exe.bak"))
    );
}

#[test]
fn a_directory_of_that_name_is_not_the_game() {
    assert_eq!(
        glxdrv_init_lol(Some("C:\\League of Legends.exe\\")),
        InitAction::Trace(Some(""))
    );
    assert_eq!(
        glxdrv_init_lol(Some("C:\\League of Legends.exe\\other.exe")),
        InitAction::Trace(Some("other.exe"))
    );
}

#[test]
fn a_slash_parts_nothing() {
    assert_eq!(
        glxdrv_init_lol(Some("/opt/games/League of Legends.exe")),
        InitAction::Trace(Some("/opt/games/League of Legends.exe"))
    );
}

#[test]
fn an_unknown_executable_is_traced_without_a_name() {
    assert_eq!(glxdrv_init_lol(None), InitAction::Trace(None));
}

#[test]
fn the_file_name_follows_the_last_backslash() {
    assert_eq!(executable_name(""), "");
    assert_eq!(executable_name("\\"), "");
    assert_eq!(executable_name("a"), "a");
    assert_eq!(executable_name("a\\b"), "b");
    assert_eq!(executable_name("a\\b\\"), "");
    assert_eq!(executable_name("a\\\\b c"), "b c");
    assert_eq!(executable_name("Z:\\größe\\naïve.exe"), "naïve.exe");
    assert_eq!(executable_name("Z:\\日本\\語.exe"), "語.exe");
}

#[test]
fn the_file_name_is_the_last_part_of_a_split() {
    for path in ["", "\\", "a", "a\\b", "a\\b\\", "\\\\a", "C:\\x y\\z.exe", "é\\ü"] {
        assert_eq!(Some(executable_name(path)), path.split("\\").last(), "{:?}", path);
    }
}

#[test]
fn the_override_is_spelled_as_the_driver_reads_it() {
    assert_eq!(MESA_GL_VERSION_OVERRIDE, "MESA_GL_VERSION_OVERRIDE");
    assert_eq!(VERSION_OVERRIDE_VALUE, "3.2COMPAT");
    assert_eq!(GAME_EXECUTABLE, "League of Legends.exe");
}
