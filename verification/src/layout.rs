//! Fixed-width text for metric table cells.

use vstd::prelude::*;
use crate::text::{chars_of, string_from_chars};

verus! {

/// Character width of a fixed monospace throughput cell.
pub const METRIC_BPS_CHARS: usize = 14;

/// Character width of a fixed monospace event-rate cell.
pub const METRIC_RATE_CHARS: usize = 10;

/// `s` left-padded with spaces to `width` characters; longer text unchanged.
pub open spec fn padded(s: Seq<char>, width: nat) -> Seq<char> {
    if s.len() >= width {
        s
    } else {
        Seq::new((width - s.len()) as nat, |i: int| ' ') + s
    }
}

/// Left-pad `s` to exactly `width` characters (Unicode scalar count).
/// Longer strings are returned unchanged: the width is a minimum.
pub fn pad_metric(s: &str, width: usize) -> (r: String)
    ensures
        r@ == padded(s@, width as nat),
        r@.len() == if s@.len() >= width { s@.len() } else { width as nat },
        r@.subrange(r@.len() - s@.len(), r@.len() as int) == s@,
{
    let cs = chars_of(s);
    let n = cs.len();
    if n >= width {
        proof {
            assert(s@.subrange(0, s@.len() as int) =~= s@);
        }
        return string_from_chars(&cs);
    }
    let mut out: Vec<char> = Vec::new();
    let mut i: usize = 0;
    while i < width - n
        invariant
            n < width,
            i <= width - n,
            out@ == Seq::new(i as nat, |j: int| ' '),
        decreases width - n - i,
    {
        out.push(' ');
        i = i + 1;
        assert(out@ =~= Seq::new(i as nat, |j: int| ' '));
    }
    let mut k: usize = 0;
    while k < n
        invariant
            n == cs@.len(),
            k <= n,
            n < width,
            out@ == Seq::new((width - n) as nat, |j: int| ' ') + cs@.take(k as int),
        decreases n - k,
    {
        proof {
            assert(cs@.take(k + 1) =~= cs@.take(k as int).push(cs@[k as int]));
        }
        out.push(cs[k]);
        k = k + 1;
    }
    proof {
        assert(cs@.take(k as int) =~= cs@);
        let r = out@;
        assert(r.subrange(r.len() - s@.len(), r.len() as int) =~= s@);
    }
    string_from_chars(&out)
}

} // verus!
