//! Light and dark appearance, and the integer codes the C ABI gives them.

use vstd::prelude::*;

verus! {

/// Light or dark appearance.
#[derive(Debug, Clone, Copy, PartialEq, Eq, Hash, Structural)]
pub enum Mode {
    Dark,
    Light,
}

impl Default for Mode {
    fn default() -> (m: Mode)
        ensures
            m == Mode::Dark,
    {
        Mode::Dark
    }
}

/// The mode a C caller's integer names: `1` is light, anything else dark.
pub open spec fn mode_of_code(code: i32) -> Mode {
    if code == 1 { Mode::Light } else { Mode::Dark }
}

/// The integer a C caller reads back for a mode.
pub open spec fn code_of_mode(mode: Mode) -> i32 {
    match mode {
        Mode::Dark => 0,
        Mode::Light => 1,
    }
}

/// The mode for an integer from the C ABI (`1` light, anything else dark).
pub fn mode_from_code(code: i32) -> (m: Mode)
    ensures
        m == mode_of_code(code),
{
    if code == 1 { Mode::Light } else { Mode::Dark }
}

/// The integer the C ABI reports for a mode (`0` dark, `1` light).
pub fn mode_code(mode: Mode) -> (code: i32)
    ensures
        code == code_of_mode(mode),
{
    match mode {
        Mode::Dark => 0,
        Mode::Light => 1,
    }
}

/// Reading back the mode that was set gives the code that names it: a mode
/// survives the trip through its code, and a code survives the trip through
/// its mode exactly when it is `0` or `1`.
pub proof fn lemma_mode_code_round_trip(mode: Mode, code: i32)
    ensures
        mode_of_code(code_of_mode(mode)) == mode,
        code_of_mode(mode_of_code(code)) == (if code == 1 { 1i32 } else { 0i32 }),
{
}

} // verus!
