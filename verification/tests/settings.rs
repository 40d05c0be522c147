use cyborgpl::settings::{
    check_link, parse_allow_link, pass_pipeline, read_consent, read_settings, resolve_link, resolve_optimize_setting,
    split_lines, Located,
};

fn found() -> Located {
    Located { absolute: true, source_error: None, allowed_error: None, same: true }
}

#[test]
fn no_link_loads_no_settings() {
    assert_eq!(resolve_link(&None, true, true), Ok(None));
    assert_eq!(resolve_link(&None, false, false), Ok(None));
}

#[test]
fn a_link_needs_a_source_file_and_an_absolute_path() {
    let link = Some("/a/b.cyborgsettings".to_string());
    assert_eq!(resolve_link(&link, true, true), Ok(link.clone()));
    assert_eq!(
        resolve_link(&link, false, true),
        Err("linkto*(...)*; requires a source file on disk (not the built-in default program)".to_string())
    );
    assert_eq!(
        resolve_link(&Some("b\"c".to_string()), true, false),
        Err("linkto*(...)*; requires an absolute filepath, found \"b\\\"c\"".to_string())
    );
}

#[test]
fn the_first_line_must_allow_the_link() {
    assert_eq!(parse_allow_link("  allow.link*( \"/a/b.cyborgpl\" )*  ", "/s"), Ok("/a/b.cyborgpl".to_string()));
    assert_eq!(
        parse_allow_link("optimize.true", "/s"),
        Err("/s: line 1: expected 'allow.link*(\"filepath\")*' as the first line, found \"optimize.true\"".to_string())
    );
    assert_eq!(
        parse_allow_link("allow.link*(\"/a\")", "/s"),
        Err(
            "/s: line 1: expected 'allow.link*(\"filepath\")*' as the first line, found \"allow.link*(\\\"/a\\\")\""
                .to_string()
        )
    );
    assert_eq!(
        parse_allow_link("allow.link*(/a)*", "/s"),
        Err(
            "/s: line 1: expected 'allow.link*(\"filepath\")*' as the first line, path must be a quoted string, \
             found \"/a\""
                .to_string()
        )
    );
    assert!(parse_allow_link("allow.link*(\")*", "/s").is_err());
}

#[test]
fn a_settings_file_must_consent() {
    let text = Some("allow.link*(\"/p\")*\noptimize.false\n".to_string());
    assert_eq!(read_consent("/s", &text), Ok("/p".to_string()));
    assert_eq!(
        read_consent("/s", &None),
        Err("linkto*(...)*; names /s, which doesn't exist or can't be read".to_string())
    );
    assert_eq!(
        read_consent("/s", &Some(String::new())),
        Err("/s: expected 'allow.link*(\"...\")*' as the first line, found an empty file".to_string())
    );
}

#[test]
fn both_sides_of_a_link_must_agree() {
    assert_eq!(check_link("/s", "p", "/p", &found()), None);
    assert_eq!(
        check_link("/s", "p", "q", &Located { absolute: false, ..found() }),
        Some("/s: allow.link*(...)*; requires an absolute filepath, found \"q\"".to_string())
    );
    assert_eq!(
        check_link("/s", "p", "/p", &Located { source_error: Some("gone".to_string()), ..found() }),
        Some("p: gone".to_string())
    );
    assert_eq!(
        check_link("/s", "p", "/p", &Located { allowed_error: Some("gone".to_string()), ..found() }),
        Some("/s: allow.link*(...)*; names /p, which doesn't exist or can't be read: gone".to_string())
    );
    assert_eq!(
        check_link("/s", "q", "/p", &Located { same: false, ..found() }),
        Some("/s: allow.link*(...)*; names /p, which doesn't match the file linking to it, q".to_string())
    );
}

#[test]
fn optimization_can_be_switched_off() {
    assert_eq!(read_settings("/s", "first\n"), Ok(true));
    assert_eq!(read_settings("/s", ""), Ok(true));
    assert_eq!(read_settings("/s", "first\n\n  optimize.false  \r\n\n"), Ok(false));
    assert_eq!(read_settings("/s", "first\noptimize.false\noptimize.true"), Ok(true));
}

#[test]
fn bad_settings_are_errors() {
    assert_eq!(
        read_settings("/s", "first\noptimize"),
        Err("/s: line 2: expected 'setting.value', found \"optimize\"".to_string())
    );
    assert_eq!(
        read_settings("/s", "first\n\noptimize.maybe\n"),
        Err("/s: line 3: 'optimize' must be true or false, found \"maybe\"".to_string())
    );
    assert_eq!(
        read_settings("/s", "first\nspeed.9.9"),
        Err("/s: line 2: unrecognized setting 'speed'".to_string())
    );
    assert!(read_settings("/s", "first\nspeed.9\noptimize.true").is_err());
}

#[test]
fn lines_of_a_text() {
    assert_eq!(split_lines("a\nb\r\n\nc"), vec!["a", "b", "", "c"]);
    assert_eq!(split_lines("a\n"), vec!["a"]);
    assert_eq!(split_lines("a\r"), vec!["a\r"]);
    assert!(split_lines("").is_empty());
}

#[test]
fn passes_only_when_optimizing() {
    assert_eq!(pass_pipeline(true), Some("default<O2>"));
    assert_eq!(pass_pipeline(false), None);
}

#[test]
fn without_a_link_optimization_is_on() {
    let nowhere = Located { absolute: false, source_error: Some("x".to_string()), allowed_error: None, same: false };
    let off = Some("allow.link*(\"/p\")*\noptimize.false".to_string());
    assert_eq!(resolve_optimize_setting(&None, &None, false, &None, &nowhere), Ok(true));
    assert_eq!(resolve_optimize_setting(&None, &Some("/p".to_string()), true, &off, &found()), Ok(true));
}

#[test]
fn with_a_link_every_step_counts() {
    let link = Some("/s".to_string());
    let source = Some("/p".to_string());
    let off = Some("allow.link*(\"/p\")*\noptimize.false".to_string());
    assert_eq!(resolve_optimize_setting(&link, &source, true, &off, &found()), Ok(false));
    assert_eq!(
        resolve_optimize_setting(&link, &None, true, &off, &found()),
        Err("linkto*(...)*; requires a source file on disk (not the built-in default program)".to_string())
    );
    assert_eq!(
        resolve_optimize_setting(&link, &source, false, &off, &found()),
        Err("linkto*(...)*; requires an absolute filepath, found \"/s\"".to_string())
    );
    assert_eq!(
        resolve_optimize_setting(&link, &source, true, &None, &found()),
        Err("linkto*(...)*; names /s, which doesn't exist or can't be read".to_string())
    );
    assert_eq!(
        resolve_optimize_setting(&link, &source, true, &off, &Located { same: false, ..found() }),
        Err("/s: allow.link*(...)*; names /p, which doesn't match the file linking to it, /p".to_string())
    );
    let bad = Some("allow.link*(\"/p\")*\nspeed.9".to_string());
    assert_eq!(
        resolve_optimize_setting(&link, &source, true, &bad, &found()),
        Err("/s: line 2: unrecognized setting 'speed'".to_string())
    );
}
