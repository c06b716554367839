//! Gleam Wasm strings in guest linear memory: a pointer to a little-endian
//! `u32` length followed by the UTF-8 bytes. Host→guest strings go in an
//! arena the host places above everything the guest has allocated.

use vstd::prelude::*;
use vstd::bytes::{spec_u32_from_le_bytes, spec_u32_to_le_bytes, u32_from_le_bytes, u32_to_le_bytes};
use vstd::utf8::{valid_utf8, decode_utf8, encode_utf8};
use vstd::slice::slice_subrange;
use crate::text::{append_chars, append_str, int_chars, int_text, string_from_chars};

verus! {

broadcast use vstd::utf8::group_utf8_lib;

/// Bytes in one Wasm page.
pub const PAGE: u64 = 65536;

/// Text of the error `String::from_utf8` reports for bytes that are not UTF-8.
pub uninterp spec fn utf8_error_text(bytes: Seq<u8>) -> Seq<char>;

/// `String::from_utf8`: per its documentation, the string those bytes encode
/// when they are valid UTF-8, else an error (here, the error's `Display` text).
#[verifier::external_body]
fn string_from_utf8(bytes: Vec<u8>) -> (r: Result<String, String>)
    ensures
        r is Ok <==> valid_utf8(bytes@),
        r is Ok ==> r->Ok_0@ == decode_utf8(bytes@),
        r is Err ==> r->Err_0@ == utf8_error_text(bytes@),
{
    String::from_utf8(bytes).map_err(|e| e.to_string())
}

/// Next free offset in the host-owned high arena (`0`: not placed yet).
#[derive(Debug, Clone, Copy)]
pub struct HostStringArena {
    next: u32,
}

impl HostStringArena {
    /// The arena's next free offset.
    pub closed spec fn next_offset(&self) -> u32 {
        self.next
    }

    pub fn new() -> (a: Self)
        ensures
            a.next_offset() == 0,
    {
        HostStringArena { next: 0 }
    }
}

impl Default for HostStringArena {
    fn default() -> (a: Self)
        ensures
            a.next_offset() == 0,
    {
        HostStringArena::new()
    }
}

/// The bytes a Gleam string occupies: its byte length (as a `u32`, little
/// endian) and then its UTF-8 bytes.
pub open spec fn encoded(value: Seq<char>) -> Seq<u8> {
    spec_u32_to_le_bytes(encode_utf8(value).len() as u32) + encode_utf8(value)
}

/// `x` rounded up to a multiple of four.
pub open spec fn align4(x: int) -> int {
    (x + 3) - (x + 3) % 4
}

fn align_up4(x: u64) -> (r: u64)
    requires
        x <= u64::MAX - 3,
    ensures
        r == align4(x as int),
{
    let y = x + 3;
    assert(y & !3u64 == y - y % 4) by (bit_vector);
    y & !3u64
}

/// What a Gleam string reads back as: the decoded text, or why it cannot be read.
pub open spec fn read_result(data: Seq<u8>, ptr: i32) -> Result<Seq<char>, Seq<char>> {
    if ptr < 0 {
        Err("gleam string ptr "@ + int_text(ptr as int) + " is negative"@)
    } else if ptr + 4 > data.len() {
        Err("gleam string ptr "@ + int_text(ptr as int) + " out of bounds for len header (mem "@
            + int_text(data.len() as int) + ")"@)
    } else {
        let len = spec_u32_from_le_bytes(data.subrange(ptr as int, ptr + 4));
        if ptr + 4 + len > usize::MAX {
            Err("gleam string len "@ + int_text(len as int) + " overflows"@)
        } else if ptr + 4 + len > data.len() {
            Err("gleam string ptr "@ + int_text(ptr as int) + " len "@ + int_text(len as int)
                + " out of bounds (mem "@ + int_text(data.len() as int) + ")"@)
        } else {
            let bytes = data.subrange(ptr + 4, ptr + 4 + len);
            if valid_utf8(bytes) {
                Ok(decode_utf8(bytes))
            } else {
                Err("gleam string utf-8: "@ + utf8_error_text(bytes))
            }
        }
    }
}

/// Read a Gleam `String` at `ptr` from guest linear memory `data`.
pub fn read_gleam_string(data: &[u8], ptr: i32) -> (r: Result<String, String>)
    ensures
        match (r, read_result(data@, ptr)) {
            (Ok(s), Ok(t)) => s@ == t,
            (Err(e), Err(t)) => e@ == t,
            _ => false,
        },
{
    let mut msg: Vec<char> = Vec::new();
    if ptr < 0 {
        append_str(&mut msg, "gleam string ptr ");
        append_chars(&mut msg, &int_chars(ptr as i64));
        append_str(&mut msg, " is negative");
        return Err(string_from_chars(&msg));
    }
    let p = ptr as usize;
    if data.len() < 4 || p > data.len() - 4 {
        append_str(&mut msg, "gleam string ptr ");
        append_chars(&mut msg, &int_chars(ptr as i64));
        append_str(&mut msg, " out of bounds for len header (mem ");
        append_chars(&mut msg, &int_chars(data.len() as i64));
        append_str(&mut msg, ")");
        return Err(string_from_chars(&msg));
    }
    let len = u32_from_le_bytes(slice_subrange(data, p, p + 4));
    let start = p + 4;
    if len as usize > usize::MAX - start {
        append_str(&mut msg, "gleam string len ");
        append_chars(&mut msg, &int_chars(len as i64));
        append_str(&mut msg, " overflows");
        return Err(string_from_chars(&msg));
    }
    if len as usize > data.len() - start {
        append_str(&mut msg, "gleam string ptr ");
        append_chars(&mut msg, &int_chars(ptr as i64));
        append_str(&mut msg, " len ");
        append_chars(&mut msg, &int_chars(len as i64));
        append_str(&mut msg, " out of bounds (mem ");
        append_chars(&mut msg, &int_chars(data.len() as i64));
        append_str(&mut msg, ")");
        return Err(string_from_chars(&msg));
    }
    let end = start + len as usize;
    let bytes = vstd::slice::slice_to_vec(slice_subrange(data, start, end));
    match string_from_utf8(bytes) {
        Ok(s) => Ok(s),
        Err(e) => {
            append_str(&mut msg, "gleam string utf-8: ");
            append_str(&mut msg, e.as_str());
            Err(string_from_chars(&msg))
        },
    }
}

/// The bytes a Gleam string occupies in guest memory.
pub fn encode_gleam_string(value: &str) -> (b: Vec<u8>)
    ensures
        b@ == encoded(value@),
{
    let bytes = value.as_bytes();
    let mut out = u32_to_le_bytes(bytes.len() as u32);
    let mut i: usize = 0;
    while i < bytes.len()
        invariant
            i <= bytes@.len(),
            bytes@ == encode_utf8(value@),
            out@ == spec_u32_to_le_bytes(bytes@.len() as u32) + bytes@.take(i as int),
        decreases bytes@.len() - i,
    {
        proof {
            assert(bytes@.take(i + 1) =~= bytes@.take(i as int).push(bytes@[i as int]));
        }
        out.push(bytes[i]);
        i = i + 1;
    }
    proof {
        assert(bytes@.take(i as int) =~= bytes@);
    }
    out
}

/// Arena space for a string of `len` bytes: the four-byte header and the
/// bytes, rounded up to a multiple of four.
pub open spec fn span_of(len: int) -> int {
    align4(4 + len)
}

/// The arena space a string of `len` bytes takes.
pub fn string_span(len: usize) -> (r: Result<u64, String>)
    ensures
        len as int + 7 <= u64::MAX ==> r == Ok::<u64, String>(span_of(len as int) as u64),
        len as int + 7 > u64::MAX ==> (r matches Err(e) && e@ == "gleam string too large"@),
{
    if len as u64 > u64::MAX - 7 {
        return Err(String::from_str("gleam string too large"));
    }
    Ok(align_up4(4 + len as u64))
}

impl HostStringArena {
    /// Where a first string goes, when the arena has not been placed yet: the
    /// end of the guest's memory rounded up to four, and the end of the
    /// string's span. `None` once the arena is placed.
    pub fn first_placement(&self, data_size: u64, span: u64) -> (r: Option<Result<(u64, u64), String>>)
        ensures
            self.next_offset() != 0 ==> r is None,
            self.next_offset() == 0 ==> r is Some,
            self.next_offset() == 0 && data_size as int + 3 <= u64::MAX && align4(data_size as int) + span
                <= u64::MAX ==> r == Some(
                Ok::<(u64, u64), String>((align4(data_size as int) as u64, (align4(data_size as int) + span) as u64)),
            ),
            self.next_offset() == 0 && (data_size as int + 3 > u64::MAX || align4(data_size as int) + span
                > u64::MAX) ==> (r matches Some(Err(e)) && e@ == "gleam string arena overflow"@),
    {
        if self.next != 0 {
            return None;
        }
        if data_size > u64::MAX - 3 {
            return Some(Err(String::from_str("gleam string arena overflow")));
        }
        let start = align_up4(data_size);
        if span > u64::MAX - start {
            return Some(Err(String::from_str("gleam string arena overflow")));
        }
        Some(Ok((start, start + span)))
    }

    /// Place the arena at `start` (kept as a 32-bit offset).
    pub fn place(&mut self, start: u64)
        ensures
            final(self).next_offset() == start as u32,
    {
        self.next = start as u32;
    }

    /// The span a string of `span` bytes takes at the arena's next offset.
    pub fn next_span(&self, span: u64) -> (r: Result<(u64, u64), String>)
        ensures
            self.next_offset() + span <= u64::MAX ==> r == Ok::<(u64, u64), String>(
                (self.next_offset() as u64, (self.next_offset() + span) as u64),
            ),
            self.next_offset() + span > u64::MAX ==> (r matches Err(e) && e@ == "gleam string arena overflow"@),
    {
        let start = self.next as u64;
        if span > u64::MAX - start {
            return Err(String::from_str("gleam string arena overflow"));
        }
        Ok((start, start + span))
    }

    /// Move the arena's next offset to `end` (kept as a 32-bit offset).
    pub fn advance(&mut self, end: u64)
        ensures
            final(self).next_offset() == end as u32,
    {
        self.next = end as u32;
    }
}

/// Pages of linear memory needed to hold `end_byte` bytes.
pub fn pages_needed(end_byte: u64) -> (p: u64)
    ensures
        p as int * PAGE >= end_byte,
        p == 0 || (p - 1) * PAGE < end_byte,
{
    let q = end_byte / PAGE;
    if end_byte % PAGE == 0 { q } else { q + 1 }
}

/// A string written at `ptr` reads back as itself: where guest memory holds
/// `encoded(value)` at a non-negative `ptr` (and the string's byte length fits
/// the `u32` header), reading a Gleam string there gives `value`.
pub proof fn lemma_read_after_write(data: Seq<u8>, ptr: i32, value: Seq<char>)
    requires
        0 <= ptr,
        encode_utf8(value).len() <= u32::MAX,
        ptr + encoded(value).len() <= data.len(),
        ptr + encoded(value).len() <= usize::MAX,
        data.subrange(ptr as int, ptr + encoded(value).len()) == encoded(value),
    ensures
        read_result(data, ptr) == Ok::<Seq<char>, Seq<char>>(value),
{
    vstd::bytes::lemma_auto_spec_u32_to_from_le_bytes();
    let bytes = encode_utf8(value);
    let n = bytes.len() as u32;
    let enc = encoded(value);
    let hdr = spec_u32_to_le_bytes(n);
    assert(hdr.len() == 4);
    assert(data.subrange(ptr as int, ptr + 4) =~= enc.subrange(0, 4));
    assert(enc.subrange(0, 4) =~= hdr);
    assert(spec_u32_from_le_bytes(hdr) == n);
    assert(data.subrange(ptr + 4, ptr + 4 + n) =~= enc.subrange(4, 4 + n));
    assert(enc.subrange(4, 4 + n) =~= bytes);
}

/// Guest memory `data` once a Gleam string holding `value` is stored at `start`.
pub open spec fn stored(data: Seq<u8>, start: int, value: Seq<char>) -> Seq<u8> {
    data.take(start) + encoded(value) + data.skip(start + encoded(value).len())
}

/// Store `value` as a Gleam string at `start` in guest memory `data`: its
/// byte length as a little-endian `u32`, then its bytes. Nothing else changes.
pub fn store_gleam_string(data: &mut [u8], start: usize, value: &str)
    requires
        start + encoded(value@).len() <= old(data)@.len(),
    ensures
        final(data)@ == stored(old(data)@, start as int, value@),
{
    let enc = encode_gleam_string(value);
    let ghost d0 = data@;
    let total = data.len();
    let mut i: usize = 0;
    while i < enc.len()
        invariant
            i <= enc@.len(),
            enc@ == encoded(value@),
            start + enc@.len() <= d0.len(),
            data@.len() == d0.len(),
            d0.len() == total,
            forall|k: int| 0 <= k < start ==> #[trigger] data@[k] == d0[k],
            forall|k: int| start + enc@.len() <= k < d0.len() ==> #[trigger] data@[k] == d0[k],
            forall|k: int| 0 <= k < i ==> #[trigger] data@[start + k] == enc@[k],
        decreases enc@.len() - i,
    {
        data[start + i] = enc[i];
        i = i + 1;
    }
    proof {
        let want = stored(d0, start as int, value@);
        assert forall|k: int| 0 <= k < data@.len() implies data@[k] == want[k] by {
            if k >= start && k < start + enc@.len() {
                assert(data@[start + (k - start)] == enc@[k - start]);
            }
        }
        assert(data@ =~= want);
    }
}

/// A stored string reads back as itself: after storing `value` at a
/// non-negative 32-bit pointer that leaves room for it, reading a Gleam string
/// there gives `value`.
pub proof fn lemma_store_then_read(data: Seq<u8>, start: int, value: Seq<char>)
    requires
        0 <= start <= i32::MAX,
        encode_utf8(value).len() <= u32::MAX,
        start + encoded(value).len() <= data.len(),
        data.len() <= usize::MAX,
    ensures
        read_result(stored(data, start, value), start as i32) == Ok::<Seq<char>, Seq<char>>(value),
{
    let d = stored(data, start, value);
    let n = encoded(value).len();
    assert(d.subrange(start, start + n) =~= encoded(value));
    lemma_read_after_write(d, start as i32, value);
}

/// Arena positions stay four-byte aligned: the first one is the memory's size
/// rounded up to four, and each string's span is a multiple of four, so the
/// next string starts right after the previous one's span.
pub proof fn lemma_arena_alignment(data_size: int, len: int, start: int)
    requires
        data_size >= 0,
        len >= 0,
        start % 4 == 0,
    ensures
        align4(data_size) % 4 == 0,
        align4(data_size) >= data_size,
        span_of(len) % 4 == 0,
        span_of(len) >= 4 + len,
        (start + span_of(len)) % 4 == 0,
{
}

} // verus!
