//! Typed reads of a tree node's props, and the small decisions the painter
//! makes from them.

use vstd::prelude::*;
use crate::tree::Value;
use crate::text::{chars_of, chars_eq, string_from_chars};

verus! {

/// The text of a string prop; empty for any other value or none.
pub open spec fn text_of(v: Option<&Value>) -> Seq<char> {
    match v {
        Some(Value::Str(s)) => s@,
        _ => Seq::empty(),
    }
}

/// A prop's text (`""` unless it holds a string).
pub fn prop_str(v: Option<&Value>) -> (r: &str)
    ensures
        r@ == text_of(v),
{
    if let Some(Value::Str(text)) = v {
        return text.as_str();
    }
    proof {
        reveal_strlit("");
    }
    ""
}

/// Whether the IEEE-754 double with these bits is non-zero (NaN counts as non-zero).
pub open spec fn bits_nonzero(bits: u64) -> bool {
    bits != 0 && bits != 0x8000_0000_0000_0000
}

/// A prop read as a flag: a bool as it is, a number as "non-zero", anything
/// else the default.
pub open spec fn flag_of(v: Option<&Value>, default: bool) -> bool {
    match v {
        Some(Value::Bool(b)) => *b,
        Some(Value::Num(n)) => bits_nonzero(*n),
        _ => default,
    }
}

pub fn prop_bool(v: Option<&Value>, default: bool) -> (b: bool)
    ensures
        b == flag_of(
            v,
            default,
        ),
{
    match v {
        Some(Value::Bool(b)) => *b,
        Some(Value::Num(n)) => *n != 0 && *n != 0x8000_0000_0000_0000u64,
        _ => default,
    }
}

/// A widget's text: `:label`, or `:text` where the label is empty.
pub fn prop_label<'a>(label: Option<&'a Value>, text: Option<&'a Value>) -> (s: &'a str)
    ensures
        s@ == (if text_of(
            label,
        ).len() == 0 {
            text_of(
                text,
            )
        } else {
            text_of(
                label,
            )
        }),
{
    let l = prop_str(label);
    if l.is_empty() {
        prop_str(text)
    } else {
        l
    }
}

/// The button kind code a `:kind` keyword names: `primary` 1, `destructive` 2, else 0.
pub fn kind_code(kind: &str) -> (code: i32)
    ensures
        code == (if kind@ == "primary"@ {
            1i32
        } else if kind@ == "destructive"@ {
            2i32
        } else {
            0i32
        }),
{
    let k = chars_of(kind);
    if chars_eq(&k, &chars_of("primary")) {
        1
    } else if chars_eq(&k, &chars_of("destructive")) {
        2
    } else {
        0
    }
}

/// Frames the view must stay away from the end before leaving is reported.
pub const AWAY_FRAMES: u32 = 3;

/// How a scroll area's "at the end" report moves on by one frame: the away
/// counter restarts at the end and otherwise counts up; the settled state is
/// "at the end" at once and "away" after enough frames away; a settled state
/// that differs from the last one recorded is recorded, and reported unless
/// nothing was recorded before.
pub open spec fn scroll_step(at_end: bool, away: u32, recorded: Option<bool>) -> (u32, Option<bool>, Option<bool>) {
    let away2: u32 = if at_end { 0 } else if away == u32::MAX { u32::MAX } else { (away + 1) as u32 };
    let settled: Option<bool> = if at_end { Some(true) } else if away2 >= AWAY_FRAMES { Some(false) } else { None };
    match settled {
        Some(s) => if recorded != Some(s) {
            (away2, Some(s), if recorded is Some { Some(s) } else { None })
        } else {
            (away2, recorded, None)
        },
        None => (away2, recorded, None),
    }
}

/// One frame of the end-of-scroll report: the new away counter, the new
/// recorded state, and the state to report, if any.
pub fn scroll_end_step(at_end: bool, away: u32, recorded: Option<bool>) -> (r: (u32, Option<bool>, Option<bool>))
    ensures
        r == scroll_step(at_end, away, recorded),
        r.2 == Some(false) ==> r.0 >= AWAY_FRAMES,
        r.2 is Some ==> r.1 == r.2 && recorded is Some && recorded != r.2,
{
    let away2 = if at_end { 0 } else { away.saturating_add(1) };
    let settled = if at_end {
        Some(true)
    } else if away2 >= AWAY_FRAMES {
        Some(false)
    } else {
        None
    };
    match settled {
        Some(s) => {
            let changed = match recorded {
                Some(x) => x != s,
                None => true,
            };
            if changed {
                (away2, Some(s), if recorded.is_some() { Some(s) } else { None })
            } else {
                (away2, recorded, None)
            }
        },
        None => (away2, recorded, None),
    }
}

/// FNV-1a over bytes, 32-bit.
pub open spec fn fnv1a(bytes: Seq<u8>) -> u32
    decreases bytes.len(),
{
    if bytes.len() == 0 {
        2166136261u32
    } else {
        (fnv1a(bytes.drop_last()) ^ (bytes.last() as u32)).wrapping_mul(16777619u32)
    }
}

fn fnv1a_bytes(bytes: &[u8]) -> (h: u32)
    ensures
        h == fnv1a(bytes@),
{
    let mut hash: u32 = 2166136261;
    let mut i: usize = 0;
    while i < bytes.len()
        invariant
            i <= bytes@.len(),
            hash == fnv1a(bytes@.take(i as int)),
        decreases bytes@.len() - i,
    {
        proof {
            assert(bytes@.take(i + 1).drop_last() =~= bytes@.take(i as int));
        }
        hash = (hash ^ (bytes[i] as u32)).wrapping_mul(16777619);
        i = i + 1;
    }
    proof {
        assert(bytes@.take(i as int) =~= bytes@);
    }
    hash
}

/// The avatar colour for a sector of the hue wheel: six hues at one
/// saturation and value, as 8-bit channels.
pub open spec fn sector_rgb(sector: u32) -> (u8, u8, u8) {
    if sector == 0 {
        (204, 89, 89)
    } else if sector == 1 {
        (204, 140, 63)
    } else if sector == 2 {
        (114, 165, 89)
    } else if sector == 3 {
        (76, 153, 165)
    } else if sector == 4 {
        (102, 127, 204)
    } else {
        (165, 102, 178)
    }
}

/// A name's own colour: its FNV-1a hash picks one of six hues.
pub fn name_colour_rgb(name: &str) -> (rgb: (u8, u8, u8))
    ensures
        rgb == sector_rgb(fnv1a(vstd::utf8::encode_utf8(name@)) % 6),
{
    let h = fnv1a_bytes(name.as_bytes());
    let sector = h % 6;
    if sector == 0 {
        (204, 89, 89)
    } else if sector == 1 {
        (204, 140, 63)
    } else if sector == 2 {
        (114, 165, 89)
    } else if sector == 3 {
        (76, 153, 165)
    } else if sector == 4 {
        (102, 127, 204)
    } else {
        (165, 102, 178)
    }
}

/// What `char::to_uppercase` yields for a character, collected.
pub uninterp spec fn upper_of(c: char) -> Seq<char>;

/// `char::to_uppercase`, collected into a string. Claimed: the string is the
/// mapping `upper_of` names, and holds at least one character, as the
/// documentation says the iterator yields one or more.
#[verifier::external_body]
fn uppercase(c: char) -> (s: String)
    ensures
        s@ == upper_of(c),
        s@.len() >= 1,
{
    c.to_uppercase().collect()
}

/// Sigils a chat puts before a name.
pub open spec fn is_sigil(c: char) -> bool {
    c == '#' || c == '&' || c == '@' || c == '+' || c == '%' || c == '~'
}

/// `s` without its leading sigils.
pub open spec fn strip_sigils(s: Seq<char>) -> Seq<char>
    decreases s.len(),
{
    if s.len() > 0 && is_sigil(s[0]) {
        strip_sigils(s.drop_first())
    } else {
        s
    }
}

/// The letter an avatar without a picture shows: the first character after
/// any leading sigils, upper-cased; `?` when there is none.
pub fn avatar_initial(label: &str) -> (s: String)
    ensures
        s@ == (if strip_sigils(label@).len() == 0 { "?"@ } else { upper_of(strip_sigils(label@)[0]) }),
{
    let cs = chars_of(label);
    let mut i: usize = 0;
    proof {
        assert(cs@.skip(0) =~= cs@);
    }
    while i < cs.len()
        && (cs[i] == '#' || cs[i] == '&' || cs[i] == '@' || cs[i] == '+' || cs[i] == '%' || cs[i] == '~')
        invariant
            i <= cs@.len(),
            strip_sigils(cs@) == strip_sigils(cs@.skip(i as int)),
        decreases cs@.len() - i,
    {
        proof {
            assert(cs@.skip(i as int).drop_first() =~= cs@.skip(i + 1));
        }
        i = i + 1;
    }
    if i == cs.len() {
        proof {
            assert(cs@.skip(i as int) =~= Seq::<char>::empty());
        }
        String::from_str("?")
    } else {
        uppercase(cs[i])
    }
}

} // verus!
