//! AVCC (length-prefixed) → Annex B conversion for H.264-in-MP4, injecting the
//! `avcC` parameter sets in front of an IDR slice that arrives without them.

use vstd::prelude::*;
use mp4::Mp4Track;

verus! {

#[verifier::external_type_specification]
#[verifier::external_body]
pub struct ExMp4Track(Mp4Track);

/// An `avcC` configuration taken by its values: the length-size field and
/// the bytes of each sequence and picture parameter set, in order.
pub open spec fn config_view(config: Option<(u8, Vec<Vec<u8>>, Vec<Vec<u8>>)>) -> Option<(u8, Seq<Seq<u8>>, Seq<Seq<u8>>)> {
    match config {
        None => None,
        Some((l, sps, pps)) => Some((l, sps@.map_values(|v: Vec<u8>| v@), pps@.map_values(|v: Vec<u8>| v@))),
    }
}

/// The `avcC` configuration that a track's sample description holds: a
/// function of the track alone.
pub uninterp spec fn avcc_of(track: Mp4Track) -> Option<(u8, Seq<Seq<u8>>, Seq<Seq<u8>>)>;

/// Reads the `avcC` configuration of an MP4 track: `None` when the track's
/// sample description has no `avc1` entry, otherwise the length-size field
/// and the bytes of each sequence and picture parameter set, in order. What
/// a given track holds is named `avcc_of(track)` and not stated further.
#[verifier::external_body]
pub(crate) fn track_avcc_config(track: &Mp4Track) -> (r: Option<(u8, Vec<Vec<u8>>, Vec<Vec<u8>>)>)
    ensures
        config_view(r) == avcc_of(*track),
{
    match &track.trak.mdia.minf.stbl.stsd.avc1 {
        Some(avc1) => Some((
            avc1.avcc.length_size_minus_one,
            avc1.avcc.sequence_parameter_sets.iter().map(|v| v.bytes.clone()).collect(),
            avc1.avcc.picture_parameter_sets.iter().map(|v| v.bytes.clone()).collect(),
        )),
        None => None,
    }
}

/// Network abstraction layer type of an H.264 NAL unit.
#[derive(Clone, Copy, Debug, PartialEq, Eq, Structural)]
pub enum NalType {
    Unspecified,
    Slice,
    IdrSlice,
    Sps,
    Pps,
    Other,
}

/// The NAL type named by the low five bits of a unit's first byte.
pub open spec fn nal_type_of(b: u8) -> NalType {
    let t = b % 32;
    if t == 0 {
        NalType::Unspecified
    } else if t == 1 {
        NalType::Slice
    } else if t == 5 {
        NalType::IdrSlice
    } else if t == 7 {
        NalType::Sps
    } else if t == 8 {
        NalType::Pps
    } else {
        NalType::Other
    }
}

impl NalType {
    pub fn from_byte(value: u8) -> (t: NalType)
        ensures
            t == nal_type_of(value),
    {
        let low = value & 0x1F;
        assert(value & 0x1F == value % 32) by (bit_vector);
        match low {
            0 => NalType::Unspecified,
            1 => NalType::Slice,
            5 => NalType::IdrSlice,
            7 => NalType::Sps,
            8 => NalType::Pps,
            _ => NalType::Other,
        }
    }
}

/// Big-endian length prefix as a `u32` accumulator reads it: each byte is
/// shifted in from the right.
pub open spec fn length_prefix(acc: u32, bytes: Seq<u8>) -> u32
    decreases bytes.len(),
{
    if bytes.len() == 0 {
        acc
    } else {
        length_prefix(((acc << 8u32) | (bytes[0] as u32)) as u32, bytes.drop_first())
    }
}

proof fn lemma_shift_in(acc: u32, x: u8)
    requires
        acc < 0x100_0000,
    ensures
        ((acc << 8u32) | (x as u32)) as u32 == acc * 256 + x,
{
    assert(((acc << 8u32) | (x as u32)) as u32 == acc * 256 + x) by (bit_vector)
        requires
            acc < 0x100_0000;
}

/// A length prefix of one to four bytes is read big-endian: the first byte
/// is the most significant, and each byte weighs 256 times the next.
pub proof fn lemma_length_prefix_big_endian(b: Seq<u8>)
    requires
        1 <= b.len() <= 4,
    ensures
        b.len() == 1 ==> length_prefix(0, b) == b[0],
        b.len() == 2 ==> length_prefix(0, b) == b[0] * 256 + b[1],
        b.len() == 3 ==> length_prefix(0, b) == b[0] * 65536 + b[1] * 256 + b[2],
        b.len() == 4 ==> length_prefix(0, b) == b[0] * 16777216 + b[1] * 65536 + b[2] * 256 + b[3],
{
    let s1 = b.drop_first();
    lemma_shift_in(0, b[0]);
    let a1: u32 = b[0] as u32;
    if b.len() >= 2 {
        let s2 = s1.drop_first();
        lemma_shift_in(a1, s1[0]);
        let a2: u32 = (a1 * 256 + s1[0]) as u32;
        if b.len() >= 3 {
            let s3 = s2.drop_first();
            lemma_shift_in(a2, s2[0]);
            let a3: u32 = (a2 * 256 + s2[0]) as u32;
            if b.len() == 4 {
                lemma_shift_in(a3, s3[0]);
                let a4: u32 = ((a3 << 8u32) | (s3[0] as u32)) as u32;
                assert(s3.drop_first().len() == 0);
                assert(length_prefix(a4, s3.drop_first()) == a4);
                assert(length_prefix(a3, s3) == a4);
            } else {
                assert(s3.len() == 0);
            }
            assert(length_prefix(a2, s2) == length_prefix(a3, s3));
        } else {
            assert(s2.len() == 0);
        }
        assert(length_prefix(a1, s1) == length_prefix(a2, s2));
    } else {
        assert(s1.len() == 0);
    }
    assert(length_prefix(0, b) == length_prefix(a1, s1));
}

/// `256` to the power `n`.
pub open spec fn pow256(n: nat) -> nat
    decreases n,
{
    if n == 0 { 1 } else { 256 * pow256((n - 1) as nat) }
}

/// The big-endian number the bytes `b` spell: `Σ b[i] · 256^(len − 1 − i)`.
pub open spec fn big_endian(b: Seq<u8>) -> nat
    decreases b.len(),
{
    if b.len() == 0 {
        0
    } else {
        (b[0] as nat) * pow256((b.len() - 1) as nat) + big_endian(b.drop_first())
    }
}

proof fn lemma_shift_in_mod(acc: u32, x: u8)
    ensures
        ((acc << 8u32) | (x as u32)) as u32 == (acc * 256 + x) % 0x1_0000_0000,
{
    assert(((acc << 8u32) | (x as u32)) as u32 == (acc * 256 + x) % 0x1_0000_0000) by (bit_vector);
}

proof fn lemma_prefix_from(acc: u32, b: Seq<u8>)
    ensures
        length_prefix(acc, b) == (acc * pow256(b.len()) + big_endian(b)) % 0x1_0000_0000,
    decreases b.len(),
{
    let m: int = 0x1_0000_0000;
    if b.len() == 0 {
        assert(pow256(0) == 1);
        assert(acc * pow256(0) + big_endian(b) == acc as int);
    } else {
        let rest = b.drop_first();
        let p = pow256(rest.len());
        let x: int = acc * 256 + b[0];
        lemma_shift_in_mod(acc, b[0]);
        let a2: u32 = ((acc << 8u32) | (b[0] as u32)) as u32;
        lemma_prefix_from(a2, rest);
        assert(a2 == x % m);
        let y: int = big_endian(rest) as int;
        vstd::arithmetic::div_mod::lemma_add_mod_noop((x % m) * p, y, m);
        vstd::arithmetic::div_mod::lemma_mul_mod_noop_left(x, p as int, m);
        vstd::arithmetic::div_mod::lemma_add_mod_noop(x * p, y, m);
        assert(pow256(b.len()) == 256 * p);
        assert(x * p == acc * (256 * p) + b[0] * p) by (nonlinear_arith)
            requires
                x == acc * 256 + b[0];
        assert(big_endian(b) == b[0] * p + y);
    }
}

/// A length prefix is read big-endian, whatever its length: the first byte
/// is the most significant and each byte weighs 256 times the next. The
/// length is kept in 32 bits, so a prefix longer than four bytes keeps only
/// the value modulo 2³².
pub proof fn lemma_length_prefix_value(b: Seq<u8>)
    ensures
        length_prefix(0, b) == big_endian(b) % 0x1_0000_0000,
        b.len() <= 4 ==> length_prefix(0, b) == big_endian(b),
{
    lemma_prefix_from(0, b);
    if b.len() <= 4 {
        lemma_big_endian_bound(b);
        reveal_with_fuel(pow256, 5);
        assert(pow256(b.len()) <= 0x1_0000_0000);
        vstd::arithmetic::div_mod::lemma_small_mod(big_endian(b), 0x1_0000_0000);
    }
}

proof fn lemma_big_endian_bound(b: Seq<u8>)
    ensures
        big_endian(b) < pow256(b.len()),
    decreases b.len(),
{
    if b.len() > 0 {
        let rest = b.drop_first();
        lemma_big_endian_bound(rest);
        let p = pow256(rest.len());
        assert(b[0] * p + big_endian(rest) < 256 * p) by (nonlinear_arith)
            requires
                b[0] < 256,
                big_endian(rest) < p;
    }
}

/// The unit a length-prefixed stream starts with is exactly as long as its
/// big-endian prefix says, and starts right after the prefix: for a four-byte
/// prefix `b0 b1 b2 b3` the unit holds `b0·2²⁴ + b1·2¹⁶ + b2·2⁸ + b3` bytes.
pub proof fn lemma_unit_length(s: Seq<u8>, length_size: nat)
    requires
        1 <= length_size <= 4,
        length_size <= s.len(),
    ensures
        ({
            let n: int = if length_size == 1 {
                s[0] as int
            } else if length_size == 2 {
                s[0] * 256 + s[1]
            } else if length_size == 3 {
                s[0] * 65536 + s[1] * 256 + s[2]
            } else {
                s[0] * 16777216 + s[1] * 65536 + s[2] * 256 + s[3]
            };
            &&& n > 0 && n <= s.len() - length_size ==> next_unit(s, length_size) == Some(
                (nal_type_of(s[length_size as int]), s.subrange(length_size as int, length_size + n), (length_size + n) as nat))
            &&& (n == 0 || n > s.len() - length_size) ==> next_unit(s, length_size) is None
        }),
{
    lemma_length_prefix_big_endian(s.take(length_size as int));
}

/// One length-prefixed unit at the front of `s`: its type, its bytes, and
/// how far the stream advances past it. `None` when the prefix is cut short,
/// the length is zero, or the unit runs past the end.
pub open spec fn next_unit(s: Seq<u8>, length_size: nat) -> Option<(NalType, Seq<u8>, nat)> {
    if s.len() < length_size {
        None
    } else {
        let size = length_prefix(0, s.take(length_size as int)) as nat;
        if size == 0 || s.len() - length_size < size {
            None
        } else {
            let unit = s.subrange(length_size as int, (length_size + size) as int);
            Some((nal_type_of(unit[0]), unit, length_size + size))
        }
    }
}

/// The Annex B start code.
pub open spec fn start_code() -> Seq<u8> {
    seq![0u8, 0u8, 1u8]
}

/// Each parameter set behind its own start code, in order.
pub open spec fn with_start_codes(sets: Seq<Seq<u8>>) -> Seq<u8>
    decreases sets.len(),
{
    if sets.len() == 0 {
        Seq::empty()
    } else {
        with_start_codes(sets.drop_last()) + start_code() + sets.last()
    }
}

/// Whether the next IDR is new and which parameter sets the stream carried itself.
pub struct ConvState {
    pub new_idr: bool,
    pub sps_seen: bool,
    pub pps_seen: bool,
}

/// Handle one unit: the state after it and the bytes it puts out.
pub open spec fn convert_unit(
    st: ConvState,
    sps: Seq<Seq<u8>>,
    pps: Seq<Seq<u8>>,
    t: NalType,
    unit: Seq<u8>,
) -> (ConvState, Seq<u8>) {
    let (st1, injected) = match t {
        NalType::Sps => (ConvState { sps_seen: true, ..st }, Seq::<u8>::empty()),
        NalType::Pps => (ConvState { pps_seen: true, ..st }, Seq::<u8>::empty()),
        NalType::IdrSlice => {
            let first_mb = !st.new_idr && unit.len() > 1 && unit[1] >= 128;
            let ni = st.new_idr || first_mb;
            if ni && !st.sps_seen && !st.pps_seen {
                (ConvState { new_idr: false, ..st }, with_start_codes(sps) + with_start_codes(pps))
            } else if ni && st.sps_seen && !st.pps_seen {
                (ConvState { new_idr: ni, ..st }, with_start_codes(pps))
            } else {
                (ConvState { new_idr: ni, ..st }, Seq::<u8>::empty())
            }
        },
        _ => (st, Seq::<u8>::empty()),
    };
    let st2 = if !st1.new_idr && t == NalType::Slice {
        ConvState { new_idr: true, sps_seen: false, pps_seen: false }
    } else {
        st1
    };
    (st2, injected + start_code() + unit)
}

/// Convert a whole packet: units in order until the stream ends or a unit
/// does not parse.
pub open spec fn convert_stream(
    st: ConvState,
    sps: Seq<Seq<u8>>,
    pps: Seq<Seq<u8>>,
    length_size: nat,
    s: Seq<u8>,
) -> (ConvState, Seq<u8>)
    decreases s.len(),
{
    if s.len() == 0 {
        (st, Seq::empty())
    } else {
        match next_unit(s, length_size) {
            None => (st, Seq::empty()),
            Some((t, unit, adv)) => {
                if adv > 0 && adv <= s.len() {
                    let (st1, o1) = convert_unit(st, sps, pps, t, unit);
                    let (st2, o2) = convert_stream(st1, sps, pps, length_size, s.skip(adv as int));
                    (st2, o1 + o2)
                } else {
                    (st, Seq::empty())
                }
            },
        }
    }
}

/// Error text for a track without an `avcC` configuration.
pub open spec fn missing_avcc_message() -> Seq<char> {
    "Track does not contain AVC1/avcC config"@
}

/// Error text for a length-size field with no prefix length in a byte.
pub open spec fn length_size_message() -> Seq<char> {
    "avcC length size does not fit a byte"@
}

/// Convert MP4/AVCC length-prefixed NAL units to Annex B for the decoder.
pub struct Mp4BitstreamConverter {
    length_size: u8,
    sps: Vec<Vec<u8>>,
    pps: Vec<Vec<u8>>,
    new_idr: bool,
    sps_seen: bool,
    pps_seen: bool,
}

fn push_range(out: &mut Vec<u8>, src: &[u8], from: usize, to: usize)
    requires
        from <= to <= src@.len(),
    ensures
        final(out)@ == old(out)@ + src@.subrange(from as int, to as int),
{
    let mut i = from;
    while i < to
        invariant
            from <= i <= to,
            to <= src@.len(),
            out@ == old(out)@ + src@.subrange(from as int, i as int),
        decreases to - i,
    {
        proof {
            assert(src@.subrange(from as int, i + 1) =~= src@.subrange(from as int, i as int).push(src@[i as int]));
        }
        out.push(src[i]);
        i = i + 1;
    }
}

fn push_sets(out: &mut Vec<u8>, sets: &Vec<Vec<u8>>)
    ensures
        final(out)@ == old(out)@ + with_start_codes(sets@.map_values(|v: Vec<u8>| v@)),
{
    let ghost views = sets@.map_values(|v: Vec<u8>| v@);
    let mut k: usize = 0;
    while k < sets.len()
        invariant
            k <= sets@.len(),
            views == sets@.map_values(|v: Vec<u8>| v@),
            out@ == old(out)@ + with_start_codes(views.take(k as int)),
        decreases sets@.len() - k,
    {
        let set = &sets[k];
        out.push(0);
        out.push(0);
        out.push(1);
        push_range(out, set.as_slice(), 0, set.len());
        proof {
            assert(views.take(k + 1).drop_last() =~= views.take(k as int));
            assert(views.take(k + 1).last() == set@);
            assert(set@.subrange(0, set@.len() as int) =~= set@);
            assert(out@ =~= old(out)@ + with_start_codes(views.take(k + 1)));
        }
        k = k + 1;
    }
    proof {
        assert(views.take(k as int) =~= views);
    }
}

impl Mp4BitstreamConverter {
    /// The converter's state between packets.
    pub closed spec fn state(&self) -> ConvState {
        ConvState { new_idr: self.new_idr, sps_seen: self.sps_seen, pps_seen: self.pps_seen }
    }

    pub closed spec fn sps_sets(&self) -> Seq<Seq<u8>> {
        self.sps@.map_values(|v: Vec<u8>| v@)
    }

    pub closed spec fn pps_sets(&self) -> Seq<Seq<u8>> {
        self.pps@.map_values(|v: Vec<u8>| v@)
    }

    pub closed spec fn prefix_len(&self) -> nat {
        self.length_size as nat
    }

    /// A converter for a track whose `avcC` box gives `length_size_minus_one`
    /// and the parameter sets; the first IDR it sees counts as new.
    pub fn new(length_size_minus_one: u8, sps: Vec<Vec<u8>>, pps: Vec<Vec<u8>>) -> (c: Self)
        requires
            length_size_minus_one < 255,
        ensures
            c.prefix_len() == length_size_minus_one + 1,
            c.sps_sets() == sps@.map_values(|v: Vec<u8>| v@),
            c.pps_sets() == pps@.map_values(|v: Vec<u8>| v@),
            c.state() == (ConvState { new_idr: true, sps_seen: false, pps_seen: false }),
    {
        Mp4BitstreamConverter {
            length_size: length_size_minus_one + 1,
            sps,
            pps,
            new_idr: true,
            sps_seen: false,
            pps_seen: false,
        }
    }

    /// What building a converter from an `avcC` configuration gives: a
    /// missing configuration is refused, and so is a length-size field of
    /// 255, whose prefix length does not fit a byte; otherwise a fresh
    /// converter over the configuration's parameter sets.
    pub open spec fn built_from(r: Result<Self, String>, config: Option<(u8, Seq<Seq<u8>>, Seq<Seq<u8>>)>) -> bool {
        match config {
            None => r matches Err(e) && e@ == missing_avcc_message(),
            Some((l, sps, pps)) => if l == 255 {
                r matches Err(e) && e@ == length_size_message()
            } else {
                r matches Ok(c) && c.prefix_len() == l + 1
                    && c.sps_sets() == sps
                    && c.pps_sets() == pps
                    && c.state() == (ConvState { new_idr: true, sps_seen: false, pps_seen: false })
            },
        }
    }

    /// A converter from a track's `avcC` configuration as `for_mp4_track`
    /// reads it. A track without one is refused, and so is a length-size
    /// field of 255, whose prefix length does not fit a byte.
    pub fn from_avcc_config(config: Option<(u8, Vec<Vec<u8>>, Vec<Vec<u8>>)>) -> (r: Result<Self, String>)
        ensures
            Self::built_from(r, config_view(config)),
    {
        match config {
            None => Err(String::from_str("Track does not contain AVC1/avcC config")),
            Some((l, sps, pps)) => {
                if l == 255 {
                    Err(String::from_str("avcC length size does not fit a byte"))
                } else {
                    Ok(Self::new(l, sps, pps))
                }
            },
        }
    }

    /// A converter for an MP4 track, built from the `avcC` configuration
    /// that the track holds.
    pub fn for_mp4_track(track: &Mp4Track) -> (r: Result<Self, String>)
        ensures
            Self::built_from(r, avcc_of(*track)),
    {
        Self::from_avcc_config(track_avcc_config(track))
    }

    /// Parse the unit at `pos`: its type and byte range, or `None`.
    fn unit_at(packet: &[u8], pos: usize, length_size: u8) -> (r: Option<(NalType, usize, usize)>)
        requires
            pos <= packet@.len(),
        ensures
            match next_unit(packet@.skip(pos as int), length_size as nat) {
                None => r is None,
                Some((t, unit, adv)) => r matches Some((rt, a, b)) && rt == t && pos <= a <= b
                    && b <= packet@.len() && unit == packet@.subrange(a as int, b as int)
                    && adv == b - pos,
            },
    {
        let ghost s = packet@.skip(pos as int);
        let ls = length_size as usize;
        if packet.len() - pos < ls {
            return None;
        }
        let mut nal_size: u32 = 0;
        let mut i: usize = 0;
        proof {
            assert(s.take(ls as int).skip(0) =~= s.take(ls as int));
        }
        while i < ls
            invariant
                i <= ls,
                pos + ls <= packet.len(),
                s == packet@.skip(pos as int),
                length_prefix(0, s.take(ls as int)) == length_prefix(nal_size, s.take(ls as int).skip(i as int)),
            decreases ls - i,
        {
            assert(pos + i < pos + ls);
            let b = packet[pos + i];
            proof {
                let rest = s.take(ls as int).skip(i as int);
                assert(rest[0] == b);
                assert(rest.drop_first() =~= s.take(ls as int).skip(i + 1));
            }
            nal_size = (nal_size << 8) | (b as u32);
            i = i + 1;
        }
        proof {
            assert(s.take(ls as int).skip(i as int) =~= Seq::<u8>::empty());
        }
        let size = nal_size as usize;
        let start = pos + ls;
        if nal_size == 0 || packet.len() - start < size {
            return None;
        }
        let end = start + size;
        let t = NalType::from_byte(packet[start]);
        proof {
            assert(s.subrange(ls as int, ls + size) =~= packet@.subrange(start as int, end as int));
        }
        Some((t, start, end))
    }

    /// Handle the unit `packet[a..b]` of type `t`: update the IDR and
    /// parameter-set state and append what the unit puts out.
    fn emit_unit(&mut self, t: NalType, packet: &[u8], a: usize, b: usize, out: &mut Vec<u8>)
        requires
            a < b <= packet@.len(),
            t == nal_type_of(packet@[a as int]),
        ensures
            ({
                let (st1, o1) = convert_unit(
                    old(self).state(),
                    old(self).sps_sets(),
                    old(self).pps_sets(),
                    t,
                    packet@.subrange(a as int, b as int),
                );
                final(self).state() == st1 && final(out)@ == old(out)@ + o1
            }),
            final(self).sps_sets() == old(self).sps_sets(),
            final(self).pps_sets() == old(self).pps_sets(),
            final(self).prefix_len() == old(self).prefix_len(),
    {
        let ghost unit = packet@.subrange(a as int, b as int);
        match t {
            NalType::Sps => {
                self.sps_seen = true;
            },
            NalType::Pps => {
                self.pps_seen = true;
            },
            NalType::IdrSlice => {
                if !self.new_idr && b - a > 1 && packet[a + 1] & 0x80 != 0 {
                    self.new_idr = true;
                }
                proof {
                    if b - a > 1 {
                        let x = packet[a + 1];
                        assert(x & 0x80 != 0 <==> x >= 128) by (bit_vector);
                    }
                }
                if self.new_idr && !self.sps_seen && !self.pps_seen {
                    self.new_idr = false;
                    push_sets(out, &self.sps);
                    push_sets(out, &self.pps);
                }
                if self.new_idr && self.sps_seen && !self.pps_seen {
                    push_sets(out, &self.pps);
                }
            },
            _ => {},
        }
        out.push(0);
        out.push(0);
        out.push(1);
        push_range(out, packet, a, b);
        if !self.new_idr && t == NalType::Slice {
            self.new_idr = true;
            self.sps_seen = false;
            self.pps_seen = false;
        }
        proof {
            let (st1, o1) = convert_unit(old(self).state(), old(self).sps_sets(), old(self).pps_sets(), t, unit);
            assert(self.state() == st1);
            assert(out@ =~= old(out)@ + o1);
        }
    }

    /// Convert one MP4 sample into Annex B in `out` (cleared first), carrying
    /// the IDR / parameter-set state on to the next packet.
    pub fn convert_packet(&mut self, packet: &[u8], out: &mut Vec<u8>)
        ensures
            (final(self).state(), final(out)@) == convert_stream(
                old(self).state(),
                old(self).sps_sets(),
                old(self).pps_sets(),
                old(self).prefix_len(),
                packet@,
            ),
            final(self).sps_sets() == old(self).sps_sets(),
            final(self).pps_sets() == old(self).pps_sets(),
            final(self).prefix_len() == old(self).prefix_len(),
    {
        out.clear();
        let ghost sps = self.sps_sets();
        let ghost pps = self.pps_sets();
        let ghost ls = self.prefix_len();
        let ghost total = convert_stream(self.state(), sps, pps, ls, packet@);
        proof {
            assert(packet@.skip(0) =~= packet@);
            assert(out@ + total.1 =~= total.1);
        }
        let mut pos: usize = 0;
        loop
            invariant
                pos <= packet@.len(),
                sps == self.sps_sets(),
                pps == self.pps_sets(),
                ls == self.prefix_len(),
                total.0 == convert_stream(self.state(), sps, pps, ls, packet@.skip(pos as int)).0,
                total.1 == out@ + convert_stream(self.state(), sps, pps, ls, packet@.skip(pos as int)).1,
            ensures
                total.0 == self.state(),
                total.1 == out@,
            decreases packet@.len() - pos,
        {
            let ghost rem = packet@.skip(pos as int);
            if pos == packet.len() {
                proof {
                    assert(rem.len() == 0);
                    assert(out@ + Seq::<u8>::empty() =~= out@);
                }
                break;
            }
            let (t, a, b) = match Self::unit_at(packet, pos, self.length_size) {
                Some(u) => u,
                None => {
                    proof {
                        assert(out@ + Seq::<u8>::empty() =~= out@);
                    }
                    break;
                },
            };
            proof {
                assert(packet@.skip(pos as int).skip(b - pos) =~= packet@.skip(b as int));
            }
            self.emit_unit(t, packet, a, b, out);
            pos = b;
        }
    }
}

/// Parameter sets are only ever injected in front of an IDR slice: any other
/// unit comes out as itself behind a start code.
pub proof fn lemma_only_idr_injects(
    st: ConvState,
    sps: Seq<Seq<u8>>,
    pps: Seq<Seq<u8>>,
    t: NalType,
    unit: Seq<u8>,
)
    requires
        t != NalType::IdrSlice,
    ensures
        convert_unit(st, sps, pps, t, unit).1 == start_code() + unit,
{
    assert(Seq::<u8>::empty() + start_code() + unit =~= start_code() + unit);
}

/// An IDR slice that starts a new picture, in a stream that has carried
/// neither parameter set since the last one, gets every SPS and PPS of the
/// track in front of it, and the next IDR slice of that picture does not.
pub proof fn lemma_new_idr_gets_parameter_sets(
    st: ConvState,
    sps: Seq<Seq<u8>>,
    pps: Seq<Seq<u8>>,
    unit: Seq<u8>,
)
    requires
        st.new_idr,
        !st.sps_seen,
        !st.pps_seen,
    ensures
        convert_unit(st, sps, pps, NalType::IdrSlice, unit).1 == with_start_codes(sps) + with_start_codes(pps)
            + start_code() + unit,
        !convert_unit(st, sps, pps, NalType::IdrSlice, unit).0.new_idr,
{
}

} // verus!
