use vidya::demo::{
    apply_cli_args, apply_update, headline, key_action, op_glyph, parse_i64, parse_mode,
    screenshot_tick, toggle_label, toggled, CliOptions, KeyAction, Nav,
};
use vidya::theme::Mode;

#[test]
fn modes_parse_loosely() {
    assert_eq!(parse_mode(" Dark\n"), Some(Mode::Dark));
    assert_eq!(parse_mode("L"), Some(Mode::Light));
    assert_eq!(parse_mode("dim"), None);
}

#[test]
fn sections_parse_and_label() {
    assert_eq!(Nav::parse("  FORMS "), Some(Nav::Forms));
    assert_eq!(Nav::parse("type"), Some(Nav::Typography));
    assert_eq!(Nav::parse("colors"), Some(Nav::Palette));
    assert_eq!(Nav::parse("nope"), None);
    assert_eq!(Nav::Surfaces.label(), "Surfaces");
    assert_eq!(Nav::Surfaces.short_label(), "Card");
    assert_eq!(Nav::ALL.len(), 6);
}

#[test]
fn command_line_overrides_environment() {
    let o = CliOptions::from_env(Some("palette".into()), Some("bogus".into()), None);
    assert_eq!(o.section, Nav::Palette);
    assert_eq!(o.mode, Mode::Dark);
    let o = o.with_section_text(" forms\n").with_mode_text("light");
    assert_eq!(o.section, Nav::Forms);
    assert_eq!(o.mode, Mode::Light);
    let args: Vec<String> = ["-s", "actions", "--bogus", "--mode", "zzz", "--screenshot", "/tmp/x.png", "-m"]
        .iter()
        .map(|s| s.to_string())
        .collect();
    let o = apply_cli_args(o, &args);
    assert_eq!(o.section, Nav::Actions);
    assert_eq!(o.mode, Mode::Light);
    assert_eq!(o.screenshot.as_deref(), Some("/tmp/x.png"));
}

#[test]
fn integers_parse_like_str_parse() {
    for s in ["0", "7", "-12", "+5", "9223372036854775807", "-9223372036854775808", "", "-", "1a", "9223372036854775808", " 1"] {
        assert_eq!(parse_i64(s), s.parse::<i64>().ok(), "{s:?}");
    }
}

#[test]
fn keypad_actions() {
    assert_eq!(key_action("C"), KeyAction::Clear);
    assert_eq!(key_action("CE"), KeyAction::ClearEntry);
    assert_eq!(key_action("÷"), KeyAction::Op(4));
    assert_eq!(key_action("−"), KeyAction::Op(2));
    assert_eq!(key_action("="), KeyAction::Equals);
    assert_eq!(key_action("7"), KeyAction::Digit(7));
    assert_eq!(key_action("?"), KeyAction::Ignore);
}

#[test]
fn calculator_headline() {
    assert_eq!(headline(12, op_glyph(3), false), "12  ×");
    assert_eq!(headline(-4, op_glyph(0), false), "-4");
    assert_eq!(headline(5, None, true), "Error");
    assert_eq!(op_glyph(9), None);
}

#[test]
fn updates_replace_the_model_or_record_the_error() {
    assert_eq!(apply_update(Some(1), Ok(2)), (Some(2), None));
    assert_eq!(apply_update(Some(1), Err("boom".into())), (Some(1), Some("boom".to_string())));
}

#[test]
fn every_label_parses_back_to_its_section() {
    for n in Nav::ALL {
        assert_eq!(Nav::parse(n.label()), Some(n));
    }
}

#[test]
fn the_header_toggle() {
    assert_eq!(toggled(Mode::Dark), Mode::Light);
    assert_eq!(toggled(toggled(Mode::Light)), Mode::Light);
    assert_eq!(toggle_label(Mode::Dark), " Light ");
    assert_eq!(toggle_label(Mode::Light), " Dark ");
    assert_eq!(screenshot_tick(10, false), (11, false));
    assert_eq!(screenshot_tick(11, false), (12, true));
    assert_eq!(screenshot_tick(12, true), (13, false));
    assert_eq!(screenshot_tick(u32::MAX, false), (u32::MAX, true));
}

#[test]
fn options_take_args_over_files_over_environment() {
    let s = |t: &str| Some(t.to_string());
    let o = CliOptions::from_env_and_args(s("forms"), s("light"), None, None, None, None, &vec![]);
    assert_eq!((o.section, o.mode, o.screenshot.clone()), (Nav::Forms, Mode::Light, None));
    // The /sdcard file wins over /data/local/tmp, which wins over the environment.
    let o = CliOptions::from_env_and_args(
        s("forms"), None, None, s("palette\n"), s(" actions "), s("light\n"), &vec![],
    );
    assert_eq!((o.section, o.mode), (Nav::Actions, Mode::Light));
    let o = CliOptions::from_env_and_args(s("forms"), None, None, s("palette"), s("bogus"), None, &vec![]);
    assert_eq!(o.section, Nav::Palette);
    // Arguments win over every file.
    let args = vec!["--section".to_string(), "type".to_string(), "-m".to_string(), "dark".to_string()];
    let o = CliOptions::from_env_and_args(
        s("forms"), s("light"), s("/tmp/a.png"), s("palette"), s("actions"), s("light"), &args,
    );
    assert_eq!((o.section, o.mode), (Nav::Typography, Mode::Dark));
    assert_eq!(o.screenshot.as_deref(), Some("/tmp/a.png"));
}
