//! The plain decisions of the C ABI: button kinds and copying text into a
//! caller's fixed-size buffer.

use vstd::prelude::*;

verus! {

/// Button kinds, matching `VidyaButtonKind`.
#[derive(Debug, Clone, Copy, PartialEq, Eq, Structural)]
pub enum ButtonKind {
    Plain,
    Primary,
    Destructive,
}

/// The kind a C caller's integer names: `1` primary, `2` destructive, anything else plain.
pub fn button_kind(code: i32) -> (k: ButtonKind)
    ensures
        k == (if code == 1 {
            ButtonKind::Primary
        } else if code == 2 {
            ButtonKind::Destructive
        } else {
            ButtonKind::Plain
        }),
{
    if code == 1 {
        ButtonKind::Primary
    } else if code == 2 {
        ButtonKind::Destructive
    } else {
        ButtonKind::Plain
    }
}

/// A UTF-8 continuation byte (`10xxxxxx`).
pub open spec fn is_continuation(b: u8) -> bool {
    128 <= b < 192
}

/// Whether byte index `i` of UTF-8 text starts a character or ends the text.
pub open spec fn is_char_boundary(bytes: Seq<u8>, i: int) -> bool {
    i == 0 || i == bytes.len() || (0 < i < bytes.len() && !is_continuation(bytes[i]))
}

/// How many bytes of `bytes` fit a buffer of `capacity` bytes that keeps one
/// for the terminating NUL, cut back to a character boundary: the largest
/// boundary no greater than both the text's length and `capacity - 1`.
pub open spec fn fitted_len(bytes: Seq<u8>, capacity: nat, len: nat) -> bool {
    &&& len <= bytes.len()
    &&& len + 1 <= capacity
    &&& is_char_boundary(bytes, len as int)
    &&& forall|j: int| len < j <= bytes.len() && j + 1 <= capacity ==> !is_char_boundary(bytes, j)
}

/// The number of bytes of UTF-8 text copied into a caller's buffer of
/// `capacity` bytes before its NUL terminator.
pub fn truncated_len(bytes: &[u8], capacity: usize) -> (len: usize)
    requires
        capacity > 0,
    ensures
        fitted_len(bytes@, capacity as nat, len as nat),
{
    let mut len = if bytes.len() < capacity - 1 { bytes.len() } else { capacity - 1 };
    while len > 0 && !(len == bytes.len() || bytes[len] < 128 || bytes[len] >= 192)
        invariant
            len <= bytes@.len(),
            len + 1 <= capacity,
            forall|j: int| len < j <= bytes@.len() && j + 1 <= capacity ==> !is_char_boundary(bytes@, j),
        decreases len,
    {
        len = len - 1;
    }
    len
}

} // verus!
