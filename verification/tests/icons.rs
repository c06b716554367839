use std::io::{Cursor, Write};

use vidya::emoji_pack::EmojiPack;
use vidya::icons::{
    emoji_pack_len, has_emoji_icon, icon_for_emoji, normalize_emoji, twemoji_key,
    twemoji_key_candidates, twemoji_png, Icon,
};
use zip::write::SimpleFileOptions;
use zip::{CompressionMethod, ZipWriter};

/// A stored ZIP archive holding `files` (name, bytes) in order.
fn zip_of(files: &[(&str, &[u8])]) -> Vec<u8> {
    let mut w = ZipWriter::new(Cursor::new(Vec::new()));
    let opts = SimpleFileOptions::default().compression_method(CompressionMethod::Stored);
    for (name, data) in files {
        w.start_file(*name, opts).unwrap();
        w.write_all(data).unwrap();
    }
    w.finish().unwrap().into_inner()
}

/// A pack holding the Twemoji files the lookup tests reach for.
fn test_pack() -> EmojiPack {
    let names = [
        "1f44d.png", "2764.png", "1f602.png", "1f62e.png", "1f622.png", "1f44e.png", "1f680.png",
        "1f389.png", "1f525.png", "2728.png", "1f440.png", "1f4af.png", "1f64f.png", "1f60e.png",
        "1f92f.png", "1f3f3.png", "1f3f4.png", "1f468-200d-1f4bb.png",
    ];
    let files: Vec<(&str, &[u8])> = names.iter().map(|n| (*n, n.as_bytes())).collect();
    EmojiPack::from_zip(&zip_of(&files))
}

fn chars_to_string(v: &[char]) -> String {
    v.iter().collect()
}

#[test]
fn keys_match_twemoji_filenames() {
    assert_eq!(twemoji_key("👍"), "1f44d");
    assert_eq!(twemoji_key("❤️"), "2764"); // VS16 stripped (no ZWJ)
    assert_eq!(twemoji_key("😂"), "1f602");
    assert_eq!(twemoji_key("🚀"), "1f680");
    // ZWJ sequence keeps fe0f when present in input
    let technologist = "👨\u{200D}💻";
    assert_eq!(twemoji_key(technologist), "1f468-200d-1f4bb");
}

#[test]
fn resolves_common_and_rare() {
    let pack = test_pack();
    for e in [
        "👍", "❤️", "❤", "😂", "😮", "😢", "👎", "🚀", "🎉", "🔥", "✨", "👀", "💯", "🙏", "😎",
        "🤯", "🏳️", "🏴",
    ] {
        assert!(has_emoji_icon(&pack, e), "missing Twemoji for {e:?}");
    }
}

#[test]
fn skin_tone_falls_back_to_base() {
    // 👍🏻 → base 👍 asset
    let pack = test_pack();
    assert!(has_emoji_icon(&pack, "👍🏻"));
}

#[test]
fn zwj_sequence() {
    let pack = test_pack();
    assert!(has_emoji_icon(&pack, "👨‍💻"), "technologist ZWJ");
}

#[test]
fn unknown_text_has_no_icon() {
    let pack = test_pack();
    assert!(!has_emoji_icon(&pack, "hello"));
    assert!(!has_emoji_icon(&pack, ""));
}

#[test]
fn icon_shortcuts() {
    assert_eq!(icon_for_emoji("👍"), Some(Icon::ThumbsUp));
    assert_eq!(icon_for_emoji("❤️"), Some(Icon::Heart));
}

#[test]
fn shortcut_aliases_and_skin_tones() {
    assert_eq!(icon_for_emoji("+1"), Some(Icon::ThumbsUp));
    assert_eq!(icon_for_emoji("-1"), Some(Icon::ThumbsDown));
    assert_eq!(icon_for_emoji("👍🏽"), Some(Icon::ThumbsUp));
    assert_eq!(icon_for_emoji("🤣"), Some(Icon::Laugh));
    assert_eq!(icon_for_emoji("☹️"), Some(Icon::Frown));
    assert_eq!(icon_for_emoji("🚀"), None);
}

#[test]
fn icon_texts_and_stroke_kinds() {
    assert_eq!(Icon::Heart.emoji(), "❤️");
    assert_eq!(Icon::Plus.emoji(), "+");
    assert!(Icon::Copy.is_stroke());
    assert!(!Icon::Laugh.is_stroke());
    assert_eq!(Icon::ALL.len(), 8);
    assert_eq!(Icon::EMOJI.to_vec(), vec![
        Icon::ThumbsUp,
        Icon::Heart,
        Icon::Laugh,
        Icon::Surprised,
        Icon::Frown,
        Icon::ThumbsDown
    ]);
}

#[test]
fn normalize_strips_only_selectors() {
    assert_eq!(normalize_emoji("❤️"), "❤");
    assert_eq!(normalize_emoji("👨\u{200D}💻"), "👨\u{200D}💻");
    assert_eq!(normalize_emoji("a\u{FE0E}b"), "ab");
}

#[test]
fn candidates_go_from_specific_to_base() {
    let c: Vec<String> = twemoji_key_candidates("  👍🏻 ").iter().map(|v| chars_to_string(v)).collect();
    assert_eq!(c, vec!["1f44d-1f3fb".to_string(), "1f44d".to_string()]);
    let c: Vec<String> = twemoji_key_candidates("🏳️").iter().map(|v| chars_to_string(v)).collect();
    assert_eq!(c, vec!["1f3f3".to_string()]);
    let c: Vec<String> = twemoji_key_candidates("👨\u{200D}💻").iter().map(|v| chars_to_string(v)).collect();
    assert_eq!(c, vec!["1f468-200d-1f4bb".to_string(), "1f468".to_string()]);
    assert!(twemoji_key_candidates("   ").is_empty());
}

#[test]
fn pack_keeps_only_flat_png_files() {
    let bytes = zip_of(&[
        ("1f44d.png", b"a"),
        ("dir/1f44e.png", b"b"),
        ("notes.txt", b"c"),
        ("back\\slash.png", b"d"),
        ("1f680.png", b"e"),
    ]);
    let pack = EmojiPack::from_zip(&bytes);
    assert_eq!(emoji_pack_len(&pack), 2);
    assert_eq!(twemoji_png(&pack, "🚀").map(|v| v.clone()), Some(b"e".to_vec()));
    assert!(twemoji_png(&pack, "👎").is_none());
}

#[test]
fn a_refused_archive_gives_an_empty_pack() {
    let pack = EmojiPack::from_zip(b"not a zip archive");
    assert_eq!(emoji_pack_len(&pack), 0);
    assert!(!has_emoji_icon(&pack, "👍"));
}

#[test]
fn pack_insert_replaces_a_name() {
    let mut pack = EmojiPack::new();
    pack.insert("1f44d.png".chars().collect(), vec![1]);
    pack.insert("1f44d.png".chars().collect(), vec![2]);
    assert_eq!(pack.len(), 1);
    assert_eq!(pack.get(&"1f44d.png".chars().collect()), Some(&vec![2]));
}
