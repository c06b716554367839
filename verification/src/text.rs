//! Small verified string building blocks shared by the rest of the crate.

use vstd::prelude::*;
use vstd::std_specs::iter::IteratorSpec;

verus! {

broadcast use vstd::string::group_string_axioms;

} // verus!

verus! {

/// Appending one `char` to a `String` extends its view by that char.
pub assume_specification[ String::push ](s: &mut String, ch: char)
    ensures
        final(s)@ == old(s)@.push(ch),
;

/// Characters of a string, as a vector.
pub fn chars_of(s: &str) -> (out: Vec<char>)
    ensures
        out@ == s@,
{
    let mut out: Vec<char> = Vec::new();
    let mut iter = s.chars();
    loop
        invariant
            iter.obeys_prophetic_iter_laws(),
            out@ + iter.remaining() == s@,
            iter.decrease() is Some,
        ensures
            out@ == s@,
        decreases iter.decrease()->0,
    {
        let ghost before = iter.remaining();
        match iter.next() {
            Some(c) => {
                proof {
                    assert(out@.push(c) + iter.remaining() =~= out@ + before);
                }
                out.push(c);
            },
            None => {
                proof {
                    assert(before.len() == 0);
                    assert(out@ + before =~= out@);
                }
                break;
            },
        }
    }
    out
}

/// A `String` holding exactly the given characters.
pub fn string_from_chars(chars: &Vec<char>) -> (s: String)
    ensures
        s@ == chars@,
{
    let mut s = String::new();
    let mut i: usize = 0;
    while i < chars.len()
        invariant
            i <= chars.len(),
            s@ == chars@.take(i as int),
        decreases chars.len() - i,
    {
        proof {
            assert(chars@.take(i + 1) =~= chars@.take(i as int).push(chars@[i as int]));
        }
        s.push(chars[i]);
        i = i + 1;
    }
    proof {
        assert(chars@.take(i as int) =~= chars@);
    }
    s
}

/// Character-wise equality of two strings.
pub fn str_eq(a: &str, b: &str) -> (eq: bool)
    ensures
        eq == (a@ == b@),
{
    let ac = chars_of(a);
    let bc = chars_of(b);
    chars_eq(&ac, &bc)
}

/// Element-wise equality of two character vectors.
pub fn chars_eq(a: &Vec<char>, b: &Vec<char>) -> (eq: bool)
    ensures
        eq == (a@ == b@),
{
    if a.len() != b.len() {
        return false;
    }
    let mut i: usize = 0;
    while i < a.len()
        invariant
            i <= a.len(),
            a.len() == b.len(),
            forall|j: int| 0 <= j < i ==> a@[j] == b@[j],
        decreases a.len() - i,
    {
        if a[i] != b[i] {
            return false;
        }
        i = i + 1;
    }
    proof {
        assert(a@ =~= b@);
    }
    true
}

/// Digit character for a value below sixteen (lowercase hex).
pub open spec fn hex_digit(d: nat) -> char {
    if d < 10 {
        ((d + 48) as u8) as char
    } else {
        ((d + 87) as u8) as char
    }
}

/// Lowercase hexadecimal digits of `n`, without leading zeros (`0` is `"0"`).
pub open spec fn hex_of(n: nat) -> Seq<char>
    decreases n,
{
    if n < 16 {
        seq![hex_digit(n)]
    } else {
        hex_of(n / 16).push(hex_digit(n % 16))
    }
}

/// Decimal digits of `n`, without leading zeros (`0` is `"0"`).
pub open spec fn dec_of(n: nat) -> Seq<char>
    decreases n,
{
    if n < 10 {
        seq![((n + 48) as u8) as char]
    } else {
        dec_of(n / 10).push((((n % 10) + 48) as u8) as char)
    }
}

/// Decimal rendering of a signed integer (`-` before the digits of a negative one).
pub open spec fn int_text(v: int) -> Seq<char> {
    if v < 0 {
        seq!['-'] + dec_of((-v) as nat)
    } else {
        dec_of(v as nat)
    }
}

fn digit_char(d: u64, hex: bool) -> (c: char)
    requires
        d < 16,
        !hex ==> d < 10,
    ensures
        hex ==> c == hex_digit(d as nat),
        !hex ==> c == ((d + 48) as u8) as char,
{
    if d < 10 {
        ((d + 48) as u8) as char
    } else {
        ((d + 87) as u8) as char
    }
}

/// Lowercase hex of `n` (as `format!("{:x}", n)` prints it).
pub fn hex_string(n: u32) -> (s: Vec<char>)
    ensures
        s@ == hex_of(n as nat),
    decreases n,
{
    if n < 16 {
        let d = digit_char(n as u64, true);
        vec![d]
    } else {
        let mut s = hex_string(n / 16);
        let d = digit_char((n % 16) as u64, true);
        s.push(d);
        s
    }
}

/// Decimal digits of `n` (as `n.to_string()` prints it).
pub fn dec_string(n: u64) -> (s: Vec<char>)
    ensures
        s@ == dec_of(n as nat),
    decreases n,
{
    if n < 10 {
        let d = digit_char(n, false);
        vec![d]
    } else {
        let mut s = dec_string(n / 10);
        let d = digit_char(n % 10, false);
        s.push(d);
        s
    }
}

/// Decimal rendering of an `i64` (as `v.to_string()` prints it).
pub fn int_string(v: i64) -> (s: String)
    ensures
        s@ == int_text(v as int),
{
    let digits = if v < 0 {
        let mag: u64 = if v == i64::MIN {
            9223372036854775808u64
        } else {
            (-v) as u64
        };
        let mut out: Vec<char> = vec!['-'];
        let d = dec_string(mag);
        let mut i: usize = 0;
        while i < d.len()
            invariant
                i <= d.len(),
                out@ == seq!['-'] + d@.take(i as int),
            decreases d.len() - i,
        {
            proof {
                assert(seq!['-'] + d@.take(i + 1) =~= (seq!['-'] + d@.take(i as int)).push(d@[i as int]));
            }
            out.push(d[i]);
            i = i + 1;
        }
        proof {
            assert(d@.take(i as int) =~= d@);
        }
        out
    } else {
        dec_string(v as u64)
    };
    string_from_chars(&digits)
}

/// Append the characters of `cs` to `out`.
pub fn append_chars(out: &mut Vec<char>, cs: &Vec<char>)
    ensures
        final(out)@ == old(out)@ + cs@,
{
    let mut j: usize = 0;
    while j < cs.len()
        invariant
            j <= cs@.len(),
            out@ == old(out)@ + cs@.take(j as int),
        decreases cs@.len() - j,
    {
        proof {
            assert(cs@.take(j + 1) =~= cs@.take(j as int).push(cs@[j as int]));
        }
        out.push(cs[j]);
        j = j + 1;
    }
    proof {
        assert(cs@.take(j as int) =~= cs@);
    }
}

/// Append the characters of `s` to `out`.
pub fn append_str(out: &mut Vec<char>, s: &str)
    ensures
        final(out)@ == old(out)@ + s@,
{
    let cs = chars_of(s);
    append_chars(out, &cs);
}

/// Whether `cs` holds `c`.
pub fn chars_contain(cs: &Vec<char>, c: char) -> (b: bool)
    ensures
        b == cs@.contains(c),
{
    let mut i: usize = 0;
    while i < cs.len()
        invariant
            i <= cs.len(),
            forall|j: int| 0 <= j < i ==> cs@[j] != c,
        decreases cs.len() - i,
    {
        if cs[i] == c {
            assert(cs@[i as int] == c);
            return true;
        }
        i = i + 1;
    }
    false
}

/// Whether the characters `k` spell `lit`.
pub fn chars_are(k: &Vec<char>, lit: &str) -> (b: bool)
    ensures
        b == (k@ == lit@),
{
    let l = chars_of(lit);
    chars_eq(k, &l)
}

/// The characters of an `i64` in decimal.
pub fn int_chars(v: i64) -> (cs: Vec<char>)
    ensures
        cs@ == int_text(v as int),
{
    chars_of(int_string(v).as_str())
}

} // verus!
