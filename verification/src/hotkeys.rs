//! Platform labels for keyboard shortcuts.

use vstd::prelude::*;
use egui::Key;
use crate::text::{append_str, string_from_chars};

verus! {

#[verifier::external_type_specification]
#[verifier::external_body]
pub struct ExKey(Key);

/// The display name that `egui::Key::name` gives a key: a fixed text per
/// variant, a function of the key alone.
pub uninterp spec fn key_text(key: Key) -> Seq<char>;

/// `egui::Key::name`: the key's display name, named `key_text(key)`; the
/// text of each variant is not stated.
#[verifier::external_body]
fn key_name(key: Key) -> (name: &'static str)
    ensures
        name@ == key_text(key),
{
    key.name()
}

/// The command modifier's label text.
pub open spec fn command_text(macos: bool) -> Seq<char> {
    if macos { "⌘"@ } else { "Ctrl"@ }
}

/// Platform command modifier glyph for labels: `"⌘"` on macOS, `"Ctrl"` elsewhere.
pub fn command_glyph(macos: bool) -> (glyph: &'static str)
    ensures
        glyph@ == command_text(macos),
{
    if macos {
        "⌘"
    } else {
        "Ctrl"
    }
}

/// Label text of a command+key chord.
pub open spec fn chord_text(macos: bool, name: Seq<char>) -> Seq<char> {
    if macos {
        command_text(macos) + name
    } else {
        command_text(macos) + "+"@ + name
    }
}

/// Label text of a command+shift+key chord.
pub open spec fn shift_chord_text(macos: bool, name: Seq<char>) -> Seq<char> {
    if macos {
        "⇧"@ + command_text(macos) + name
    } else {
        command_text(macos) + "+Shift+"@ + name
    }
}

/// Label for a command+key chord named `name` (`"⌘F"` / `"Ctrl+F"`).
pub fn chord_label(macos: bool, name: &str) -> (label: String)
    ensures
        label@ == chord_text(macos, name@),
{
    let mut out: Vec<char> = Vec::new();
    append_str(&mut out, command_glyph(macos));
    if !macos {
        append_str(&mut out, "+");
    }
    append_str(&mut out, name);
    proof {
        assert(out@ =~= chord_text(macos, name@));
    }
    string_from_chars(&out)
}

/// Label for a command+shift+key chord named `name` (`"⇧⌘F"` / `"Ctrl+Shift+F"`).
pub fn shift_chord_label(macos: bool, name: &str) -> (label: String)
    ensures
        label@ == shift_chord_text(macos, name@),
{
    let mut out: Vec<char> = Vec::new();
    if macos {
        append_str(&mut out, "⇧");
        append_str(&mut out, command_glyph(macos));
    } else {
        append_str(&mut out, command_glyph(macos));
        append_str(&mut out, "+Shift+");
    }
    append_str(&mut out, name);
    proof {
        assert(out@ =~= shift_chord_text(macos, name@));
    }
    string_from_chars(&out)
}

/// Human-readable label for a command+key chord (`"⌘F"` / `"Ctrl+F"`).
pub fn command_shortcut_label(macos: bool, key: Key) -> (label: String)
    ensures
        label@ == chord_text(macos, key_text(key)),
{
    let name = key_name(key);
    chord_label(macos, name)
}

/// Human-readable label for command+shift+key (`"⇧⌘F"` / `"Ctrl+Shift+F"`).
pub fn command_shift_shortcut_label(macos: bool, key: Key) -> (label: String)
    ensures
        label@ == shift_chord_text(macos, key_text(key)),
{
    let name = key_name(key);
    shift_chord_label(macos, name)
}

/// Label for the Escape key.
pub fn escape_label() -> (label: &'static str)
    ensures
        label@ == "Esc"@,
{
    "Esc"
}

} // verus!
