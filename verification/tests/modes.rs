use vidya::ffi::{button_kind, truncated_len, ButtonKind};
use vidya::gleam::{IconName, ThemeMode};
use vidya::icons::Icon;
use vidya::theme::{mode_code, mode_from_code, Mode};
use vidya::video::{click_outcome, precheck_container, VideoPlayerAction};

#[test]
fn mode_codes_round_trip() {
    assert_eq!(mode_from_code(1), Mode::Light);
    assert_eq!(mode_from_code(0), Mode::Dark);
    assert_eq!(mode_from_code(7), Mode::Dark);
    assert_eq!(mode_code(Mode::Light), 1);
    assert_eq!(mode_code(mode_from_code(0)), 0);
    assert_eq!(Mode::default(), Mode::Dark);
}

#[test]
fn gleam_names_map_to_library_values() {
    assert_eq!(ThemeMode::default(), ThemeMode::Dark);
    assert_eq!(ThemeMode::Light.mode(), Mode::Light);
    assert_eq!(IconName::ThumbsDown.to_icon(), Icon::ThumbsDown);
    assert_eq!(IconName::Copy.to_icon(), Icon::Copy);
}

#[test]
fn button_kinds_from_codes() {
    assert_eq!(button_kind(1), ButtonKind::Primary);
    assert_eq!(button_kind(2), ButtonKind::Destructive);
    assert_eq!(button_kind(0), ButtonKind::Plain);
    assert_eq!(button_kind(-4), ButtonKind::Plain);
}

#[test]
fn truncation_stops_at_a_char_boundary() {
    let s = "aé€";
    assert_eq!(truncated_len(s.as_bytes(), 100), 6);
    assert_eq!(truncated_len(s.as_bytes(), 4), 3);
    assert_eq!(truncated_len(s.as_bytes(), 3), 1);
    assert_eq!(truncated_len(s.as_bytes(), 1), 0);
}

#[test]
fn player_clicks() {
    assert_eq!(click_outcome(true, true, true), (VideoPlayerAction::OpenExternally, false));
    assert_eq!(click_outcome(true, true, false), (VideoPlayerAction::NoAction, false));
    assert_eq!(click_outcome(true, false, true), (VideoPlayerAction::NoAction, true));
    assert_eq!(click_outcome(false, false, true), (VideoPlayerAction::NoAction, false));
    assert_eq!(VideoPlayerAction::default(), VideoPlayerAction::NoAction);
}

#[test]
fn container_precheck() {
    assert_eq!(precheck_container(&[0; 4]).err().unwrap(), "Video too small");
    let mut webm = vec![0x1A, 0x45, 0xDF, 0xA3];
    webm.extend_from_slice(&[0; 12]);
    assert_eq!(precheck_container(&webm).err().unwrap(), "WebM is not supported yet (H.264 MP4 only)");
    assert!(precheck_container(&[0; 16]).is_ok());
}
