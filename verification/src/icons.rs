//! Emoji icons: the named reaction shortcuts, and the Twemoji file keys by
//! which any emoji string is looked up in a color glyph pack.

use vstd::prelude::*;
use crate::text::{append_chars, chars_are, chars_contain, chars_eq, chars_of, hex_of, hex_string, string_from_chars};
use crate::emoji_pack::{EmojiPack, png_suffix};
use crate::app_icon::{decode_png_rgba, icon_result};

verus! {

broadcast use vstd::seq_lib::group_seq_properties;

/// Zero-width joiner: glues emoji into one glyph.
pub const ZWJ: char = '\u{200D}';

/// Variation selector 16: emoji presentation.
pub const VS16: char = '\u{FE0F}';

/// Variation selector 15: text presentation.
pub const VS15: char = '\u{FE0E}';

/// Named shortcuts for common reactions and UI chrome.
#[derive(Debug, Clone, Copy, PartialEq, Eq, Hash, Structural)]
pub enum Icon {
    ThumbsUp,
    ThumbsDown,
    Heart,
    Laugh,
    Surprised,
    Frown,
    /// Drawn stroke, not a Twemoji glyph.
    Plus,
    /// Drawn stroke: overlapping pages (copy / duplicate).
    Copy,
}

/// The text each icon stands for.
pub open spec fn icon_text(icon: Icon) -> Seq<char> {
    match icon {
        Icon::ThumbsUp => "👍"@,
        Icon::ThumbsDown => "👎"@,
        Icon::Heart => "❤️"@,
        Icon::Laugh => "😂"@,
        Icon::Surprised => "😮"@,
        Icon::Frown => "😢"@,
        Icon::Plus => "+"@,
        Icon::Copy => "⧉"@,
    }
}

impl Icon {
    /// The emoji icons, in picker order.
    pub const EMOJI: [Icon; 6] = [
        Icon::ThumbsUp,
        Icon::Heart,
        Icon::Laugh,
        Icon::Surprised,
        Icon::Frown,
        Icon::ThumbsDown,
    ];

    /// Every icon: the emoji ones in picker order, then the stroke ones.
    pub const ALL: [Icon; 8] = [
        Icon::ThumbsUp,
        Icon::Heart,
        Icon::Laugh,
        Icon::Surprised,
        Icon::Frown,
        Icon::ThumbsDown,
        Icon::Plus,
        Icon::Copy,
    ];

    /// True when this icon is stroke-drawn (not a Twemoji bitmap).
    pub fn is_stroke(self) -> (b: bool)
        ensures
            b == (self == Icon::Plus || self == Icon::Copy),
    {
        match self {
            Icon::Plus | Icon::Copy => true,
            _ => false,
        }
    }

    /// The emoji (or stroke symbol) this icon stands for.
    pub fn emoji(self) -> (s: &'static str)
        ensures
            s@ == icon_text(self),
    {
        match self {
            Icon::ThumbsUp => "👍",
            Icon::ThumbsDown => "👎",
            Icon::Heart => "❤️",
            Icon::Laugh => "😂",
            Icon::Surprised => "😮",
            Icon::Frown => "😢",
            Icon::Plus => "+",
            Icon::Copy => "⧉",
        }
    }
}

/// A presentation selector (text or emoji style).
pub open spec fn is_vs(c: char) -> bool {
    c == VS16 || c == VS15
}

/// A Fitzpatrick skin-tone modifier.
pub open spec fn is_skin_tone(c: char) -> bool {
    0x1F3FB <= (c as u32) <= 0x1F3FF
}

/// Which characters a filter keeps.
#[derive(Clone, Copy, PartialEq, Eq, Structural)]
pub enum CharFilter {
    /// Drop presentation selectors.
    NoSelectors,
    /// Drop skin-tone modifiers.
    NoSkinTones,
    /// Drop selectors, joiners and skin tones: the shortcut lookup key.
    Bare,
}

pub open spec fn keeps(f: CharFilter, c: char) -> bool {
    match f {
        CharFilter::NoSelectors => !is_vs(c),
        CharFilter::NoSkinTones => !is_skin_tone(c),
        CharFilter::Bare => !is_vs(c) && c != ZWJ && !is_skin_tone(c),
    }
}

/// The characters of `s` that `f` keeps, in order.
pub open spec fn kept(s: Seq<char>, f: CharFilter) -> Seq<char> {
    s.filter(|c: char| keeps(f, c))
}

fn keeps_char(f: CharFilter, c: char) -> (b: bool)
    ensures
        b == keeps(f, c),
{
    let skin = 0x1F3FBu32 <= (c as u32) && (c as u32) <= 0x1F3FFu32;
    match f {
        CharFilter::NoSelectors => c != VS16 && c != VS15,
        CharFilter::NoSkinTones => !skin,
        CharFilter::Bare => c != VS16 && c != VS15 && c != ZWJ && !skin,
    }
}

/// The characters of `s` that `f` keeps.
pub fn keep_chars(s: &Vec<char>, f: CharFilter) -> (out: Vec<char>)
    ensures
        out@ == kept(s@, f),
{
    let mut out: Vec<char> = Vec::new();
    let mut i: usize = 0;
    while i < s.len()
        invariant
            i <= s.len(),
            out@ == kept(s@.take(i as int), f),
        decreases s.len() - i,
    {
        let c = s[i];
        proof {
            assert(s@.take(i + 1) =~= s@.take(i as int).push(c));
            s@.take(i as int).lemma_filter_push(c, |c: char| keeps(f, c));
        }
        if keeps_char(f, c) {
            out.push(c);
        }
        i = i + 1;
    }
    proof {
        assert(s@.take(i as int) =~= s@);
    }
    out
}

/// Strip only presentation selectors (kept for callers and labels).
pub fn normalize_emoji(emoji: &str) -> (s: String)
    ensures
        s@ == kept(emoji@, CharFilter::NoSelectors),
{
    let cs = chars_of(emoji);
    let k = keep_chars(&cs, CharFilter::NoSelectors);
    string_from_chars(&k)
}

/// The icon a bare lookup key names, if any.
pub open spec fn icon_for_key(k: Seq<char>) -> Option<Icon> {
    if k == "👍"@ || k == "+1"@ {
        Some(Icon::ThumbsUp)
    } else if k == "👎"@ || k == "-1"@ {
        Some(Icon::ThumbsDown)
    } else if k == "❤"@ || k == "♥"@ {
        Some(Icon::Heart)
    } else if k == "😂"@ || k == "😄"@ || k == "😆"@ || k == "🤣"@ {
        Some(Icon::Laugh)
    } else if k == "😮"@ || k == "😯"@ || k == "😲"@ {
        Some(Icon::Surprised)
    } else if k == "😢"@ || k == "😞"@ || k == "🙁"@ || k == "☹"@ || k == "😭"@ {
        Some(Icon::Frown)
    } else {
        None
    }
}

/// Map a well-known short emoji to an [`Icon`]. Selectors, joiners and skin
/// tones are ignored.
pub fn icon_for_emoji(emoji: &str) -> (r: Option<Icon>)
    ensures
        r == icon_for_key(kept(emoji@, CharFilter::Bare)),
{
    let cs = chars_of(emoji);
    let k = keep_chars(&cs, CharFilter::Bare);
    if chars_are(&k, "👍") || chars_are(&k, "+1") {
        Some(Icon::ThumbsUp)
    } else if chars_are(&k, "👎") || chars_are(&k, "-1") {
        Some(Icon::ThumbsDown)
    } else if chars_are(&k, "❤") || chars_are(&k, "♥") {
        Some(Icon::Heart)
    } else if chars_are(&k, "😂") || chars_are(&k, "😄") || chars_are(&k, "😆") || chars_are(&k, "🤣") {
        Some(Icon::Laugh)
    } else if chars_are(&k, "😮") || chars_are(&k, "😯") || chars_are(&k, "😲") {
        Some(Icon::Surprised)
    } else if chars_are(&k, "😢") || chars_are(&k, "😞") || chars_are(&k, "🙁") || chars_are(&k, "☹")
        || chars_are(&k, "😭") {
        Some(Icon::Frown)
    } else {
        None
    }
}

/// Lowercase hex code points of `cs`, joined by `-`.
pub open spec fn join_hex(cs: Seq<char>) -> Seq<char>
    decreases cs.len(),
{
    if cs.len() == 0 {
        Seq::empty()
    } else if cs.len() == 1 {
        hex_of(cs[0] as u32 as nat)
    } else {
        join_hex(cs.drop_last()) + seq!['-'] + hex_of(cs.last() as u32 as nat)
    }
}

/// Twemoji file stem: without a joiner the presentation selectors are
/// dropped; with one they are kept, as the pack's file names have them.
pub open spec fn twemoji_key_of(s: Seq<char>) -> Seq<char> {
    if s.contains(ZWJ) {
        join_hex(s)
    } else {
        join_hex(kept(s, CharFilter::NoSelectors))
    }
}

/// The hex of every character of `cs` stands in `join_hex(cs)`; returns where.
proof fn lemma_join_hex_has(cs: Seq<char>, i: int) -> (k: int)
    requires
        0 <= i < cs.len(),
    ensures
        0 <= k,
        k + hex_of(cs[i] as u32 as nat).len() <= join_hex(cs).len(),
        join_hex(cs).subrange(k, k + hex_of(cs[i] as u32 as nat).len()) == hex_of(cs[i] as u32 as nat),
    decreases cs.len(),
{
    let h = hex_of(cs[i] as u32 as nat);
    if cs.len() == 1 {
        assert(join_hex(cs).subrange(0, h.len() as int) =~= h);
        0
    } else {
        let d = cs.drop_last();
        let j = join_hex(cs);
        assert(j == join_hex(d) + seq!['-'] + hex_of(cs.last() as u32 as nat));
        if i == cs.len() - 1 {
            let k: int = join_hex(d).len() as int + 1;
            assert(j.subrange(k, k + h.len()) =~= h);
            k
        } else {
            assert(d[i] == cs[i]);
            let k = lemma_join_hex_has(d, i);
            assert(j.subrange(k, k + h.len()) =~= join_hex(d).subrange(k, k + h.len()));
            k
        }
    }
}

/// With a joiner in the emoji, no code point is dropped from its Twemoji
/// key, presentation selectors included: the key is the hex of every
/// character joined by `-`, and the hex of each character stands in it.
/// So a joined sequence with `U+FE0F` has `fe0f` in its key.
pub proof fn lemma_joined_key_keeps_selectors(s: Seq<char>, i: int)
    requires
        s.contains(ZWJ),
        0 <= i < s.len(),
    ensures
        twemoji_key_of(s) == join_hex(s),
        exists|k: int| 0 <= k && k + hex_of(s[i] as u32 as nat).len() <= twemoji_key_of(s).len()
            && #[trigger] twemoji_key_of(s).subrange(k, k + hex_of(s[i] as u32 as nat).len())
                == hex_of(s[i] as u32 as nat),
        s[i] == VS16 ==> exists|k: int| 0 <= k && k + 4 <= twemoji_key_of(s).len()
            && #[trigger] twemoji_key_of(s).subrange(k, k + 4) == seq!['f', 'e', '0', 'f'],
{
    let k = lemma_join_hex_has(s, i);
    if s[i] == VS16 {
        assert(hex_of(0xFE0F) =~= seq!['f', 'e', '0', 'f']) by {
            reveal_with_fuel(hex_of, 5);
        }
        assert(s[i] as u32 as nat == 0xFE0F);
        assert(hex_of(s[i] as u32 as nat).len() == 4);
        assert(twemoji_key_of(s).subrange(k, k + 4) == seq!['f', 'e', '0', 'f']);
    }
}

proof fn lemma_filter_again(s: Seq<char>, f: CharFilter)
    ensures
        kept(kept(s, f), f) == kept(s, f),
    decreases s.len(),
{
    reveal_with_fuel(Seq::filter, 1);
    if s.len() > 0 {
        lemma_filter_again(s.drop_last(), f);
        let p = |c: char| keeps(f, c);
        assert(s.drop_last().push(s.last()) =~= s);
        let k0 = s.drop_last().filter(p);
        if p(s.last()) {
            assert(s.filter(p) == k0.push(s.last()));
            assert(k0.push(s.last()).drop_last() =~= k0);
        } else {
            assert(s.filter(p) == k0);
        }
    }
}

/// Without a joiner, presentation selectors never reach the Twemoji key:
/// an emoji and the same emoji with its selectors taken out get one key.
pub proof fn lemma_plain_key_ignores_selectors(s: Seq<char>)
    requires
        !s.contains(ZWJ),
    ensures
        twemoji_key_of(s) == twemoji_key_of(kept(s, CharFilter::NoSelectors)),
{
    let k = kept(s, CharFilter::NoSelectors);
    lemma_filter_again(s, CharFilter::NoSelectors);
    if k.contains(ZWJ) {
        s.lemma_filter_contains_rev(|c: char| keeps(CharFilter::NoSelectors, c), ZWJ);
    }
}

/// Hex code points of `cs` joined by `-`.
pub fn join_hex_chars(cs: &Vec<char>) -> (out: Vec<char>)
    ensures
        out@ == join_hex(cs@),
{
    let mut out: Vec<char> = Vec::new();
    let mut i: usize = 0;
    while i < cs.len()
        invariant
            i <= cs.len(),
            out@ == join_hex(cs@.take(i as int)),
        decreases cs.len() - i,
    {
        let c = cs[i];
        let h = hex_string(c as u32);
        proof {
            assert(cs@.take(i + 1).drop_last() =~= cs@.take(i as int));
            assert(cs@.take(i + 1).last() == c);
        }
        if i > 0 {
            out.push('-');
        }
        append_chars(&mut out, &h);
        assert(out@ =~= join_hex(cs@.take(i + 1)));
        i = i + 1;
    }
    proof {
        assert(cs@.take(i as int) =~= cs@);
    }
    out
}

fn key_chars(cs: &Vec<char>) -> (out: Vec<char>)
    ensures
        out@ == twemoji_key_of(cs@),
{
    if chars_contain(cs, ZWJ) {
        join_hex_chars(cs)
    } else {
        let k = keep_chars(cs, CharFilter::NoSelectors);
        join_hex_chars(&k)
    }
}

/// Twemoji file stem: lowercase hex code points joined by `-`.
pub fn twemoji_key(emoji: &str) -> (s: String)
    ensures
        s@ == twemoji_key_of(emoji@),
{
    let cs = chars_of(emoji);
    let k = key_chars(&cs);
    string_from_chars(&k)
}

/// Unicode `White_Space`, as `char::is_whitespace` and `str::trim` use it.
pub open spec fn is_white_space(c: char) -> bool {
    let u = c as u32;
    ||| 0x09 <= u <= 0x0D
    ||| u == 0x20
    ||| u == 0x85
    ||| u == 0xA0
    ||| u == 0x1680
    ||| 0x2000 <= u <= 0x200A
    ||| u == 0x2028
    ||| u == 0x2029
    ||| u == 0x202F
    ||| u == 0x205F
    ||| u == 0x3000
}

pub open spec fn trim_start(s: Seq<char>) -> Seq<char>
    decreases s.len(),
{
    if s.len() > 0 && is_white_space(s[0]) {
        trim_start(s.drop_first())
    } else {
        s
    }
}

pub open spec fn trim_end(s: Seq<char>) -> Seq<char>
    decreases s.len(),
{
    if s.len() > 0 && is_white_space(s.last()) {
        trim_end(s.drop_last())
    } else {
        s
    }
}

/// `s` without leading and trailing white space.
pub open spec fn trim(s: Seq<char>) -> Seq<char> {
    trim_end(trim_start(s))
}

fn white_space(c: char) -> (b: bool)
    ensures
        b == is_white_space(c),
{
    let u = c as u32;
    (0x09 <= u && u <= 0x0D) || u == 0x20 || u == 0x85 || u == 0xA0 || u == 0x1680 || (0x2000 <= u
        && u <= 0x200A) || u == 0x2028 || u == 0x2029 || u == 0x202F || u == 0x205F || u == 0x3000
}

/// The characters of `cs` without leading and trailing white space.
#[verifier::spinoff_prover]
#[verifier::rlimit(30)]
pub fn trim_chars(cs: &Vec<char>) -> (out: Vec<char>)
    ensures
        out@ == trim(cs@),
{
    let mut i: usize = 0;
    proof {
        assert(cs@.skip(0) =~= cs@);
    }
    while i < cs.len() && white_space(cs[i])
        invariant
            i <= cs.len(),
            trim_start(cs@) == trim_start(cs@.skip(i as int)),
        decreases cs.len() - i,
    {
        proof {
            assert(cs@.skip(i as int).drop_first() =~= cs@.skip(i + 1));
        }
        i = i + 1;
    }
    let ghost t = cs@.skip(i as int);
    assert(trim_start(t) == t);
    let mut j: usize = cs.len();
    proof {
        assert(cs@.subrange(i as int, j as int) =~= t);
    }
    while j > i && white_space(cs[j - 1])
        invariant
            i <= j <= cs.len(),
            trim_end(t) == trim_end(cs@.subrange(i as int, j as int)),
        decreases j - i,
    {
        proof {
            assert(cs@.subrange(i as int, j as int).drop_last() =~= cs@.subrange(i as int, j - 1));
        }
        j = j - 1;
    }
    let mut out: Vec<char> = Vec::new();
    let mut k: usize = i;
    while k < j
        invariant
            i <= k <= j <= cs.len(),
            out@ == cs@.subrange(i as int, k as int),
        decreases j - k,
    {
        proof {
            assert(cs@.subrange(i as int, k + 1) =~= cs@.subrange(i as int, k as int).push(cs@[k as int]));
        }
        out.push(cs[k]);
        k = k + 1;
    }
    out
}

/// Add `k` to the candidate list unless it is empty or already there.
pub open spec fn push_key(out: Seq<Seq<char>>, k: Seq<char>) -> Seq<Seq<char>> {
    if k.len() > 0 && !out.contains(k) {
        out.push(k)
    } else {
        out
    }
}

/// The first character that is not a selector, joiner or skin tone.
pub open spec fn first_base(s: Seq<char>) -> Option<char>
    decreases s.len(),
{
    if s.len() == 0 {
        None
    } else if keeps(CharFilter::Bare, s[0]) {
        Some(s[0])
    } else {
        first_base(s.drop_first())
    }
}

/// Candidate Twemoji stems for an emoji string, most specific first: its
/// own key, the key without selectors, the joined code points without
/// selectors, then the keys without skin tones, then the first base glyph.
pub open spec fn key_candidates(emoji: Seq<char>) -> Seq<Seq<char>> {
    let t = trim(emoji);
    if t.len() == 0 {
        Seq::empty()
    } else {
        let no_vs = kept(t, CharFilter::NoSelectors);
        let c1 = push_key(Seq::empty(), twemoji_key_of(t));
        let c2 = push_key(c1, twemoji_key_of(no_vs));
        let c3 = push_key(c2, join_hex(no_vs));
        let no_skin = kept(t, CharFilter::NoSkinTones);
        let c4 = if no_skin != t {
            push_key(
                push_key(c3, twemoji_key_of(no_skin)),
                twemoji_key_of(kept(no_skin, CharFilter::NoSelectors)),
            )
        } else {
            c3
        };
        if t.len() > 1 {
            match first_base(t) {
                Some(c) => push_key(c4, hex_of(c as u32 as nat)),
                None => c4,
            }
        } else {
            c4
        }
    }
}

fn push_key_exec(out: &mut Vec<Vec<char>>, k: Vec<char>)
    ensures
        final(out)@.map_values(|v: Vec<char>| v@) == push_key(old(out)@.map_values(|v: Vec<char>| v@), k@),
{
    let ghost before = out@.map_values(|v: Vec<char>| v@);
    if k.len() == 0 {
        return;
    }
    let mut i: usize = 0;
    while i < out.len()
        invariant
            i <= out@.len(),
            before == out@.map_values(|v: Vec<char>| v@),
            forall|j: int| 0 <= j < i ==> out@[j]@ != k@,
        decreases out@.len() - i,
    {
        if chars_eq(&out[i], &k) {
            assert(before[i as int] == k@);
            return;
        }
        i = i + 1;
    }
    proof {
        if before.contains(k@) {
            let j = choose|j: int| 0 <= j < before.len() && before[j] == k@;
            assert(out@[j]@ == k@);
        }
    }
    out.push(k);
    proof {
        assert(out@.map_values(|v: Vec<char>| v@) =~= before.push(k@));
    }
}

fn first_base_exec(cs: &Vec<char>) -> (r: Option<char>)
    ensures
        r == first_base(cs@),
{
    let mut i: usize = 0;
    proof {
        assert(cs@.skip(0) =~= cs@);
    }
    while i < cs.len()
        invariant
            i <= cs.len(),
            first_base(cs@) == first_base(cs@.skip(i as int)),
        decreases cs.len() - i,
    {
        if keeps_char(CharFilter::Bare, cs[i]) {
            return Some(cs[i]);
        }
        proof {
            assert(cs@.skip(i as int).drop_first() =~= cs@.skip(i + 1));
        }
        i = i + 1;
    }
    None
}

/// The candidate Twemoji stems of `emoji`, most specific first.
pub fn twemoji_key_candidates(emoji: &str) -> (out: Vec<Vec<char>>)
    ensures
        out@.map_values(|v: Vec<char>| v@) == key_candidates(emoji@),
{
    let mut out: Vec<Vec<char>> = Vec::new();
    let cs = chars_of(emoji);
    let t = trim_chars(&cs);
    if t.len() == 0 {
        assert(out@.map_values(|v: Vec<char>| v@) =~= Seq::<Seq<char>>::empty());
        return out;
    }
    assert(out@.map_values(|v: Vec<char>| v@) =~= Seq::<Seq<char>>::empty());
    push_key_exec(&mut out, key_chars(&t));
    let no_vs = keep_chars(&t, CharFilter::NoSelectors);
    push_key_exec(&mut out, key_chars(&no_vs));
    push_key_exec(&mut out, join_hex_chars(&no_vs));
    let no_skin = keep_chars(&t, CharFilter::NoSkinTones);
    if !chars_eq(&no_skin, &t) {
        push_key_exec(&mut out, key_chars(&no_skin));
        let no_skin_vs = keep_chars(&no_skin, CharFilter::NoSelectors);
        push_key_exec(&mut out, key_chars(&no_skin_vs));
    }
    if t.len() > 1 {
        match first_base_exec(&t) {
            Some(c) => {
                let h = hex_string(c as u32);
                push_key_exec(&mut out, h);
            },
            None => {},
        }
    }
    out
}

/// The pack file of the first candidate stem the pack holds.
pub open spec fn first_hit(pack: Map<Seq<char>, Seq<u8>>, keys: Seq<Seq<char>>) -> Option<Seq<u8>>
    decreases keys.len(),
{
    if keys.len() == 0 {
        None
    } else if pack.dom().contains(keys[0] + png_suffix()) {
        Some(pack[keys[0] + png_suffix()])
    } else {
        first_hit(pack, keys.drop_first())
    }
}

/// PNG bytes for an emoji, if the pack has a file for it.
pub fn twemoji_png<'a>(pack: &'a EmojiPack, emoji: &str) -> (r: Option<&'a Vec<u8>>)
    requires
        pack.wf(),
    ensures
        match first_hit(pack@, key_candidates(emoji@)) {
            None => r is None,
            Some(png) => r matches Some(v) && v@ == png,
        },
{
    let keys = twemoji_key_candidates(emoji);
    let ghost ks = keys@.map_values(|v: Vec<char>| v@);
    let mut i: usize = 0;
    proof {
        assert(ks.skip(0) =~= ks);
    }
    while i < keys.len()
        invariant
            i <= keys@.len(),
            pack.wf(),
            ks == keys@.map_values(|v: Vec<char>| v@),
            ks == key_candidates(emoji@),
            first_hit(pack@, ks) == first_hit(pack@, ks.skip(i as int)),
        decreases keys@.len() - i,
    {
        let mut name = keys[i].clone();
        name.push('.');
        name.push('p');
        name.push('n');
        name.push('g');
        proof {
            assert(ks.skip(i as int)[0] == keys@[i as int]@);
            assert(name@ =~= ks.skip(i as int)[0] + png_suffix());
            assert(ks.skip(i as int).drop_first() =~= ks.skip(i + 1));
        }
        match pack.get(&name) {
            Some(bytes) => {
                return Some(bytes);
            },
            None => {},
        }
        i = i + 1;
    }
    None
}

/// True when the pack has a color bitmap for this string.
pub fn has_emoji_icon(pack: &EmojiPack, emoji: &str) -> (b: bool)
    requires
        pack.wf(),
    ensures
        b == first_hit(pack@, key_candidates(emoji@)) is Some,
{
    twemoji_png(pack, emoji).is_some()
}

/// How many glyphs the pack holds.
pub fn emoji_pack_len(pack: &EmojiPack) -> (n: usize)
    requires
        pack.wf(),
    ensures
        n == pack@.dom().len(),
{
    pack.len()
}

/// RGBA pixels of an emoji PNG: width, height and `width × height × 4` bytes,
/// or `None` where the bytes do not decode to RGB or RGBA.
pub fn emoji_rgba(png: &[u8]) -> (r: Option<(usize, usize, Vec<u8>)>)
    ensures
        match icon_result(png@) {
            Ok((w, h, v)) => r matches Some((w2, h2, v2)) && w2 == w && h2 == h && v2@ == v,
            Err(_) => r is None,
        },
{
    match decode_png_rgba(png) {
        Ok((w, h, rgba)) => Some((w as usize, h as usize, rgba)),
        Err(_) => None,
    }
}

} // verus!
