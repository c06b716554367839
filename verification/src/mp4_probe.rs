//! Opening an H.264-in-MP4 stream: which track plays, the refusals, and the
//! converter that feeds its samples to the decoder.

use vstd::prelude::*;
use mp4::Mp4Track;
use crate::avcc::{avcc_of, track_avcc_config, config_view, Mp4BitstreamConverter};
use crate::text::{append_str, string_from_chars};

verus! {

/// The handler type of a track.
#[derive(Clone, Copy, Debug, PartialEq, Eq, Structural)]
pub enum TrackKind {
    Video,
    Audio,
    Subtitle,
}

/// The codec of a track's sample description.
#[derive(Clone, Copy, Debug, PartialEq, Eq, Structural)]
pub enum MediaKind {
    H264,
    H265,
    Vp9,
    Aac,
    Ttxt,
}

/// What the decoder needs to know of one track, read from the MP4 header.
pub struct TrackInfo {
    pub id: u32,
    /// `None` when the handler type is not one the demuxer knows.
    pub kind: Option<TrackKind>,
    /// The codec, or the demuxer's text for a sample description it does not know.
    pub media: Result<MediaKind, String>,
    pub width: u16,
    pub height: u16,
    /// The number of samples; `None` when the fragments' counts add up past `u32::MAX`.
    pub sample_count: Option<u32>,
    pub timescale: u32,
    /// The `avcC` configuration: length-size field, sequence and picture parameter sets.
    pub avcc: Option<(u8, Vec<Vec<u8>>, Vec<Vec<u8>>)>,
}

/// A track taken by its values.
pub struct TrackView {
    pub id: u32,
    pub kind: Option<TrackKind>,
    pub media: Result<MediaKind, Seq<char>>,
    pub width: u16,
    pub height: u16,
    pub sample_count: Option<u32>,
    pub timescale: u32,
    pub avcc: Option<(u8, Seq<Seq<u8>>, Seq<Seq<u8>>)>,
}

impl View for TrackInfo {
    type V = TrackView;

    open spec fn view(&self) -> TrackView {
        TrackView {
            id: self.id,
            kind: self.kind,
            media: match self.media {
                Ok(m) => Ok(m),
                Err(e) => Err(e@),
            },
            width: self.width,
            height: self.height,
            sample_count: self.sample_count,
            timescale: self.timescale,
            avcc: config_view(self.avcc),
        }
    }
}

/// The track id that `mp4::Mp4Track::track_id` reads from the `tkhd` box.
pub uninterp spec fn track_id_of(track: Mp4Track) -> u32;

/// The handler type that `mp4::Mp4Track::track_type` reads from the `hdlr` box.
pub uninterp spec fn track_kind_of(track: Mp4Track) -> Option<TrackKind>;

/// The codec that `mp4::Mp4Track::media_type` reads from the sample description.
pub uninterp spec fn media_of(track: Mp4Track) -> Result<MediaKind, Seq<char>>;

/// The width that `mp4::Mp4Track::width` reads.
pub uninterp spec fn width_of(track: Mp4Track) -> u16;

/// The height that `mp4::Mp4Track::height` reads.
pub uninterp spec fn height_of(track: Mp4Track) -> u16;

/// The sample count of each fragment of a track (`None` for a fragment
/// without a `trun` box), in the order the reader keeps them.
pub uninterp spec fn fragment_counts_of(track: Mp4Track) -> Seq<Option<u32>>;

/// The sample count of a track's sample size table (`stsz`).
pub uninterp spec fn table_count_of(track: Mp4Track) -> u32;

/// The timescale that `mp4::Mp4Track::timescale` reads from the `mdhd` box.
pub uninterp spec fn timescale_of(track: Mp4Track) -> u32;

/// `mp4::Mp4Track::track_id`.
#[verifier::external_body]
fn track_id(track: &Mp4Track) -> (id: u32)
    ensures
        id == track_id_of(*track),
{
    track.track_id()
}

/// `mp4::Mp4Track::track_type`: the handler type, `None` where mp4 refuses it.
#[verifier::external_body]
fn track_kind(track: &Mp4Track) -> (k: Option<TrackKind>)
    ensures
        k == track_kind_of(*track),
{
    match track.track_type() {
        Ok(mp4::TrackType::Video) => Some(TrackKind::Video),
        Ok(mp4::TrackType::Audio) => Some(TrackKind::Audio),
        Ok(mp4::TrackType::Subtitle) => Some(TrackKind::Subtitle),
        Err(_) => None,
    }
}

/// `mp4::Mp4Track::media_type`: the codec, or the text of mp4's error.
#[verifier::external_body]
fn media_kind(track: &Mp4Track) -> (m: Result<MediaKind, String>)
    ensures
        match (m, media_of(*track)) {
            (Ok(a), Ok(b)) => a == b,
            (Err(a), Err(b)) => a@ == b,
            _ => false,
        },
{
    match track.media_type() {
        Ok(mp4::MediaType::H264) => Ok(MediaKind::H264),
        Ok(mp4::MediaType::H265) => Ok(MediaKind::H265),
        Ok(mp4::MediaType::VP9) => Ok(MediaKind::Vp9),
        Ok(mp4::MediaType::AAC) => Ok(MediaKind::Aac),
        Ok(mp4::MediaType::TTXT) => Ok(MediaKind::Ttxt),
        Err(e) => Err(e.to_string()),
    }
}

/// `mp4::Mp4Track::width`.
#[verifier::external_body]
fn track_width(track: &Mp4Track) -> (w: u16)
    ensures
        w == width_of(*track),
{
    track.width()
}

/// `mp4::Mp4Track::height`.
#[verifier::external_body]
fn track_height(track: &Mp4Track) -> (h: u16)
    ensures
        h == height_of(*track),
{
    track.height()
}

/// The `trun` sample count of each of a track's fragments (`Mp4Track::trafs`).
#[verifier::external_body]
fn track_fragment_counts(track: &Mp4Track) -> (counts: Vec<Option<u32>>)
    ensures
        counts@ == fragment_counts_of(*track),
{
    track.trafs.iter().map(|traf| traf.trun.as_ref().map(|trun| trun.sample_count)).collect()
}

/// The sample count of a track's `stsz` box.
#[verifier::external_body]
fn track_table_count(track: &Mp4Track) -> (n: u32)
    ensures
        n == table_count_of(*track),
{
    track.trak.mdia.minf.stbl.stsz.sample_count
}

/// The samples of the fragments in `counts` (a fragment without a run has none).
pub open spec fn fragment_sum(counts: Seq<Option<u32>>) -> int
    decreases counts.len(),
{
    if counts.len() == 0 {
        0
    } else {
        fragment_sum(counts.drop_last()) + match counts.last() {
            Some(n) => n as int,
            None => 0,
        }
    }
}

/// A track's sample count as `mp4::Mp4Track::sample_count` gives it: the
/// sum over its fragments when it has any, else its table's count. `None`
/// where that sum passes `u32::MAX`, on which mp4's own method panics.
pub open spec fn sample_total(counts: Seq<Option<u32>>, table: u32) -> Option<u32> {
    if counts.len() == 0 {
        Some(table)
    } else if fragment_sum(counts) <= u32::MAX {
        Some(fragment_sum(counts) as u32)
    } else {
        None
    }
}

/// The sample count of a track with fragment counts `counts` and table count
/// `table`, or `None` where the fragments' counts add up past `u32::MAX`.
pub fn count_samples(counts: &Vec<Option<u32>>, table: u32) -> (r: Option<u32>)
    ensures
        r == sample_total(counts@, table),
{
    if counts.len() == 0 {
        return Some(table);
    }
    let mut sum: u32 = 0;
    let mut i: usize = 0;
    while i < counts.len()
        invariant
            i <= counts.len(),
            sum == fragment_sum(counts@.take(i as int)),
        decreases counts.len() - i,
    {
        proof {
            assert(counts@.take(i + 1).drop_last() =~= counts@.take(i as int));
        }
        match counts[i] {
            Some(n) => {
                if n > u32::MAX - sum {
                    proof {
                        lemma_fragment_sum_grows(counts@, i + 1);
                    }
                    return None;
                }
                sum = sum + n;
            },
            None => {},
        }
        i = i + 1;
    }
    proof {
        assert(counts@.take(i as int) =~= counts@);
    }
    Some(sum)
}

/// The fragment sum of a prefix is at most that of the whole.
proof fn lemma_fragment_sum_grows(counts: Seq<Option<u32>>, k: int)
    requires
        0 <= k <= counts.len(),
    ensures
        fragment_sum(counts.take(k)) <= fragment_sum(counts),
    decreases counts.len() - k,
{
    if k < counts.len() {
        lemma_fragment_sum_grows(counts, k + 1);
        assert(counts.take(k + 1).drop_last() =~= counts.take(k));
    } else {
        assert(counts.take(k) =~= counts);
    }
}

/// `mp4::Mp4Track::timescale`.
#[verifier::external_body]
fn track_timescale(track: &Mp4Track) -> (t: u32)
    ensures
        t == timescale_of(*track),
{
    track.timescale()
}

/// A track taken by the values that the demuxer reads of it.
pub open spec fn track_view(track: Mp4Track) -> TrackView {
    TrackView {
        id: track_id_of(track),
        kind: track_kind_of(track),
        media: media_of(track),
        width: width_of(track),
        height: height_of(track),
        sample_count: sample_total(fragment_counts_of(track), table_count_of(track)),
        timescale: timescale_of(track),
        avcc: avcc_of(track),
    }
}

/// Everything the decoder needs of one demuxed track.
pub fn track_info(track: &Mp4Track) -> (i: TrackInfo)
    ensures
        i@ == track_view(*track),
{
    TrackInfo {
        id: track_id(track),
        kind: track_kind(track),
        media: media_kind(track),
        width: track_width(track),
        height: track_height(track),
        sample_count: count_samples(&track_fragment_counts(track), track_table_count(track)),
        timescale: track_timescale(track),
        avcc: track_avcc_config(track),
    }
}

/// A track that is handled as video.
pub open spec fn is_video(t: TrackView) -> bool {
    t.kind == Some(TrackKind::Video)
}

/// A track whose codec is H.264.
pub open spec fn is_h264(t: TrackView) -> bool {
    t.media == Ok::<MediaKind, Seq<char>>(MediaKind::H264)
}

/// The track sought: a video track in the first pass, an H.264 one in the second.
pub open spec fn sought(t: TrackView, video: bool) -> bool {
    if video { is_video(t) } else { is_h264(t) }
}

/// `i` is the first position in `s` that holds a sought track.
pub open spec fn first_sought(s: Seq<TrackView>, video: bool, i: int) -> bool {
    &&& 0 <= i < s.len()
    &&& sought(s[i], video)
    &&& forall|j: int| 0 <= j < i ==> !sought(#[trigger] s[j], video)
}

/// The first position of a sought track, if any.
pub open spec fn first_of(s: Seq<TrackView>, video: bool) -> Option<int> {
    if exists|i: int| first_sought(s, video, i) {
        Some(choose|i: int| first_sought(s, video, i))
    } else {
        None
    }
}

/// The track that plays: the first video track, else the first H.264 track.
pub open spec fn chosen(s: Seq<TrackView>) -> Option<int> {
    match first_of(s, true) {
        Some(i) => Some(i),
        None => first_of(s, false),
    }
}

proof fn lemma_first_exists(s: Seq<TrackView>, video: bool, k: int)
    requires
        0 <= k < s.len(),
        sought(s[k], video),
    ensures
        first_of(s, video) matches Some(i) && first_sought(s, video, i) && i <= k,
    decreases k,
{
    if exists|j: int| 0 <= j < k && sought(#[trigger] s[j], video) {
        let j = choose|j: int| 0 <= j < k && sought(#[trigger] s[j], video);
        lemma_first_exists(s, video, j);
    } else {
        assert(first_sought(s, video, k));
    }
    let i = choose|i: int| first_sought(s, video, i);
    if i > k {
        assert(!sought(s[k], video));
    }
}

/// The track that plays is a video track whenever the file has one, and
/// otherwise an H.264 track whenever it has one; only a file with neither
/// has no track to play.
pub proof fn lemma_chosen_track(s: Seq<TrackView>)
    ensures
        (exists|k: int| 0 <= k < s.len() && is_video(#[trigger] s[k]))
            ==> (chosen(s) matches Some(i) && 0 <= i < s.len() && is_video(s[i])),
        (!exists|k: int| 0 <= k < s.len() && is_video(#[trigger] s[k]))
            && (exists|k: int| 0 <= k < s.len() && is_h264(#[trigger] s[k]))
            ==> (chosen(s) matches Some(i) && 0 <= i < s.len() && is_h264(s[i])),
        (!exists|k: int| 0 <= k < s.len() && (is_video(#[trigger] s[k]) || is_h264(s[k])))
            ==> chosen(s) is None,
{
    if exists|k: int| 0 <= k < s.len() && is_video(#[trigger] s[k]) {
        let k = choose|k: int| 0 <= k < s.len() && is_video(#[trigger] s[k]);
        lemma_first_exists(s, true, k);
    } else {
        assert(!exists|i: int| first_sought(s, true, i));
        if exists|k: int| 0 <= k < s.len() && is_h264(#[trigger] s[k]) {
            let k = choose|k: int| 0 <= k < s.len() && is_h264(#[trigger] s[k]);
            lemma_first_exists(s, false, k);
        }
    }
    if !exists|k: int| 0 <= k < s.len() && (is_video(#[trigger] s[k]) || is_h264(s[k])) {
        assert(!exists|i: int| first_sought(s, true, i));
        assert(!exists|i: int| first_sought(s, false, i));
    }
}

fn first_track(tracks: &Vec<TrackInfo>, video: bool) -> (r: Option<usize>)
    ensures
        r matches Some(i) ==> first_of(tracks@.map_values(|t: TrackInfo| t@), video) == Some(i as int),
        r is None ==> first_of(tracks@.map_values(|t: TrackInfo| t@), video) is None,
{
    let ghost s = tracks@.map_values(|t: TrackInfo| t@);
    let mut i: usize = 0;
    while i < tracks.len()
        invariant
            i <= tracks.len(),
            s == tracks@.map_values(|t: TrackInfo| t@),
            forall|j: int| 0 <= j < i ==> !sought(#[trigger] s[j], video),
        decreases tracks.len() - i,
    {
        let t = &tracks[i];
        let hit = if video {
            match t.kind {
                Some(TrackKind::Video) => true,
                _ => false,
            }
        } else {
            match t.media {
                Ok(MediaKind::H264) => true,
                _ => false,
            }
        };
        assert(s[i as int] == t@);
        if hit {
            proof {
                assert(first_sought(s, video, i as int));
                let c = choose|c: int| first_sought(s, video, c);
                if c < i {
                    assert(!sought(s[c], video));
                } else if c > i {
                    assert(!sought(s[i as int], video));
                }
            }
            return Some(i);
        }
        i = i + 1;
    }
    None
}

/// Position of the track that plays among `tracks`: the first video track,
/// else the first H.264 track; `None` when there is neither.
pub fn choose_track(tracks: &Vec<TrackInfo>) -> (r: Option<usize>)
    ensures
        match r {
            Some(i) => i < tracks.len() && chosen(tracks@.map_values(|t: TrackInfo| t@)) == Some(i as int),
            None => chosen(tracks@.map_values(|t: TrackInfo| t@)) is None,
        },
{
    match first_track(tracks, true) {
        Some(i) => Some(i),
        None => first_track(tracks, false),
    }
}

/// How `{:?}` writes a codec.
pub open spec fn media_debug_text(m: MediaKind) -> Seq<char> {
    match m {
        MediaKind::H264 => "H264"@,
        MediaKind::H265 => "H265"@,
        MediaKind::Vp9 => "VP9"@,
        MediaKind::Aac => "AAC"@,
        MediaKind::Ttxt => "TTXT"@,
    }
}

fn media_debug_name(m: MediaKind) -> (s: &'static str)
    ensures
        s@ == media_debug_text(m),
{
    match m {
        MediaKind::H264 => "H264",
        MediaKind::H265 => "H265",
        MediaKind::Vp9 => "VP9",
        MediaKind::Aac => "AAC",
        MediaKind::Ttxt => "TTXT",
    }
}

/// An opened H.264 track: where it is, its frame size and sample count, its
/// timescale (at least one), and the converter for its samples.
pub struct Probe {
    pub track_id: u32,
    pub width: u32,
    pub height: u32,
    pub sample_count: u32,
    pub timescale: u32,
    pub converter: Mp4BitstreamConverter,
}

/// The refusal text for a file with neither a video nor an H.264 track.
pub open spec fn no_video_message() -> Seq<char> {
    "No video track in MP4"@
}

/// The refusal text for a track whose fragments hold more than `u32::MAX` samples.
pub open spec fn sample_overflow_message() -> Seq<char> {
    "Track sample count overflows u32"@
}

/// The refusal text for a track with no samples or no frame size.
pub open spec fn empty_track_message() -> Seq<char> {
    "Empty video track"@
}

/// What opening the track `t` gives: its codec must be H.264, it must have
/// samples and a frame size, and its `avcC` configuration must build a
/// converter.
pub open spec fn opened(t: TrackView, r: Result<Probe, String>) -> bool {
    match t.media {
        Err(e) => r matches Err(m) && m@ == "Track media type: "@ + e,
        Ok(m) => if m != MediaKind::H264 {
            r matches Err(x) && x@ == "Unsupported video codec in MP4: "@ + media_debug_text(m)
        } else if t.sample_count is None {
            r matches Err(x) && x@ == sample_overflow_message()
        } else if t.sample_count == Some(0u32) || t.width == 0 || t.height == 0 {
            r matches Err(x) && x@ == empty_track_message()
        } else {
            match r {
                Ok(p) => {
                    &&& p.track_id == t.id
                    &&& p.width == t.width
                    &&& p.height == t.height
                    &&& Some(p.sample_count) == t.sample_count
                    &&& p.timescale == (if t.timescale == 0 { 1 } else { t.timescale })
                    &&& Mp4BitstreamConverter::built_from(Ok(p.converter), t.avcc)
                },
                Err(x) => Mp4BitstreamConverter::built_from(Err(x), t.avcc),
            }
        },
    }
}

/// What probing the tracks `s`, in this order, gives.
pub open spec fn probed(s: Seq<TrackView>, r: Result<Probe, String>) -> bool {
    match chosen(s) {
        None => r matches Err(e) && e@ == no_video_message(),
        Some(i) => opened(s[i], r),
    }
}

fn concat(a: &str, b: &str) -> (s: String)
    ensures
        s@ == a@ + b@,
{
    let mut out: Vec<char> = Vec::new();
    append_str(&mut out, a);
    append_str(&mut out, b);
    string_from_chars(&out)
}

/// Open the track `track`: check its codec and size, and build its converter.
pub fn open_track(track: TrackInfo) -> (r: Result<Probe, String>)
    ensures
        opened(track@, r),
{
    match &track.media {
        Err(e) => {
            return Err(concat("Track media type: ", e.as_str()));
        },
        Ok(MediaKind::H264) => {},
        Ok(other) => {
            return Err(concat("Unsupported video codec in MP4: ", media_debug_name(*other)));
        },
    }
    let sample_count = match track.sample_count {
        None => {
            return Err(String::from_str("Track sample count overflows u32"));
        },
        Some(n) => n,
    };
    if sample_count == 0 || track.width == 0 || track.height == 0 {
        return Err(String::from_str("Empty video track"));
    }
    let config = track.avcc;
    let timescale = if track.timescale == 0 { 1 } else { track.timescale };
    match Mp4BitstreamConverter::from_avcc_config(config) {
        Ok(converter) => Ok(Probe {
            track_id: track.id,
            width: track.width as u32,
            height: track.height as u32,
            sample_count,
            timescale,
            converter,
        }),
        Err(e) => Err(e),
    }
}

/// Probe demuxed tracks, in the order given: pick the track that plays and open it.
pub fn probe_tracks(tracks: Vec<TrackInfo>) -> (r: Result<Probe, String>)
    ensures
        probed(tracks@.map_values(|t: TrackInfo| t@), r),
{
    let ghost s = tracks@.map_values(|t: TrackInfo| t@);
    match choose_track(&tracks) {
        None => Err(String::from_str("No video track in MP4")),
        Some(i) => {
            let mut tracks = tracks;
            let t = tracks.remove(i);
            assert(s[i as int] == t@);
            open_track(t)
        },
    }
}

/// Probe what the demuxer made of a file's header: its error, which is
/// refused with the demuxer's text, or its tracks, in the demuxer's order.
pub fn probe_header(header: Result<Vec<TrackInfo>, String>) -> (r: Result<Probe, String>)
    ensures
        match header {
            Err(t) => r matches Err(e) && e@ == "MP4 header: "@ + t@,
            Ok(tracks) => probed(tracks@.map_values(|t: TrackInfo| t@), r),
        },
{
    match header {
        Err(e) => Err(concat("MP4 header: ", e.as_str())),
        Ok(tracks) => probe_tracks(tracks),
    }
}

/// Where decoding stands in a track of `count` samples: `next` is the
/// 1-based id of the next sample to feed, one past `count` once all are fed.
pub struct SampleCursor {
    next: u64,
    count: u32,
}

impl SampleCursor {
    /// The id of the next sample to feed.
    pub closed spec fn next_id(&self) -> nat {
        self.next as nat
    }

    /// The number of samples in the track.
    pub closed spec fn sample_total(&self) -> nat {
        self.count as nat
    }

    /// The cursor's invariant: it never moves past one beyond the last sample.
    pub closed spec fn wf(&self) -> bool {
        1 <= self.next <= self.count + 1
    }

    /// A cursor at the first of `count` samples.
    pub fn new(count: u32) -> (c: Self)
        ensures
            c.wf(),
            c.next_id() == 1,
            c.sample_total() == count,
    {
        SampleCursor { next: 1, count }
    }

    /// Whether a sample is left to feed.
    pub fn has_next(&self) -> (b: bool)
        ensures
            b == (self.next_id() <= self.sample_total()),
    {
        self.next <= self.count as u64
    }

    /// The next sample to feed, moving past it; `None`, and no move, once
    /// every sample has been fed.
    pub fn advance(&mut self) -> (r: Option<u32>)
        requires
            old(self).wf(),
        ensures
            final(self).wf(),
            final(self).sample_total() == old(self).sample_total(),
            old(self).next_id() <= old(self).sample_total() ==> r == Some(old(self).next_id() as u32)
                && final(self).next_id() == old(self).next_id() + 1,
            old(self).next_id() > old(self).sample_total() ==> r is None
                && final(self).next_id() == old(self).next_id(),
            r matches Some(id) ==> 1 <= id <= final(self).sample_total(),
            r is None ==> final(self).next_id() == final(self).sample_total() + 1,
    {
        if self.next > self.count as u64 {
            return None;
        }
        let id = self.next as u32;
        self.next = self.next + 1;
        Some(id)
    }

    /// Whether reaching sample `target` must restart decoding from the first
    /// sample: the decoder has already gone past it.
    pub fn must_restart(&self, target: u32) -> (b: bool)
        ensures
            b == (target < self.next_id()),
    {
        (target as u64) < self.next
    }

    /// Whether sample `target` has yet to be fed.
    pub fn before(&self, target: u32) -> (b: bool)
        ensures
            b == (self.next_id() <= target),
    {
        self.next <= target as u64
    }

    /// Back to the first sample.
    pub fn restart(&mut self)
        requires
            old(self).wf(),
        ensures
            final(self).wf(),
            final(self).next_id() == 1,
            final(self).sample_total() == old(self).sample_total(),
    {
        self.next = 1;
    }
}

} // verus!
