use vidya::hotkeys::{
    chord_label, command_glyph, command_shift_shortcut_label, command_shortcut_label,
    escape_label, shift_chord_label,
};

#[test]
fn command_glyph_matches_target() {
    assert_eq!(command_glyph(true), "⌘");
    assert_eq!(command_glyph(false), "Ctrl");
}

#[test]
fn command_shortcut_label_formats_f() {
    assert_eq!(command_shortcut_label(true, egui::Key::F), "⌘F");
    assert_eq!(command_shortcut_label(false, egui::Key::F), "Ctrl+F");
}

#[test]
fn command_shift_shortcut_label_formats_f() {
    assert_eq!(command_shift_shortcut_label(true, egui::Key::F), "⇧⌘F");
    assert_eq!(command_shift_shortcut_label(false, egui::Key::F), "Ctrl+Shift+F");
}

#[test]
fn escape_label_is_esc() {
    assert_eq!(escape_label(), "Esc");
}

#[test]
fn chord_labels_from_names() {
    assert_eq!(chord_label(false, "Enter"), "Ctrl+Enter");
    assert_eq!(chord_label(true, "Enter"), "⌘Enter");
    assert_eq!(shift_chord_label(false, "Z"), "Ctrl+Shift+Z");
    assert_eq!(shift_chord_label(true, "Z"), "⇧⌘Z");
}
