use vidya::host_string::{encode_gleam_string, pages_needed, read_gleam_string, string_span, HostStringArena};

#[test]
fn a_written_string_reads_back() {
    let mut mem = vec![0u8; 8];
    let enc = encode_gleam_string("héllo");
    assert_eq!(&enc[..4], &[6, 0, 0, 0]);
    mem.extend_from_slice(&enc);
    assert_eq!(read_gleam_string(&mem, 8).unwrap(), "héllo");
}

#[test]
fn bad_pointers_are_reported() {
    let mem = vec![3u8, 0, 0, 0, b'a', b'b'];
    assert_eq!(read_gleam_string(&mem, -1).err().unwrap(), "gleam string ptr -1 is negative");
    assert_eq!(
        read_gleam_string(&mem, 4).err().unwrap(),
        "gleam string ptr 4 out of bounds for len header (mem 6)"
    );
    assert_eq!(
        read_gleam_string(&mem, 0).err().unwrap(),
        "gleam string ptr 0 len 3 out of bounds (mem 6)"
    );
    let bad = vec![1u8, 0, 0, 0, 0xff];
    assert!(read_gleam_string(&bad, 0).err().unwrap().starts_with("gleam string utf-8: "));
}

#[test]
fn arena_places_above_guest_memory() {
    let mut arena = HostStringArena::new();
    let span = string_span(5).unwrap();
    assert_eq!(span, 12);
    let (start, end) = arena.first_placement(65537, span).unwrap().unwrap();
    assert_eq!((start, end), (65540, 65552));
    arena.place(start);
    assert!(arena.first_placement(65537, span).is_none());
    let (s2, e2) = arena.next_span(span).unwrap();
    assert_eq!((s2, e2), (65540, 65552));
    arena.advance(e2);
    assert_eq!(arena.next_span(4).unwrap(), (65552, 65556));
    assert_eq!(pages_needed(65552), 2);
    assert_eq!(pages_needed(65536), 1);
    assert_eq!(pages_needed(0), 0);
}

#[test]
fn a_stored_string_reads_back_and_leaves_the_rest() {
    let mut mem = vec![0xAAu8; 32];
    vidya::host_string::store_gleam_string(&mut mem, 8, "héllo");
    assert_eq!(&mem[..8], &[0xAA; 8]);
    assert_eq!(&mem[8..12], &[6, 0, 0, 0]);
    assert_eq!(&mem[18..], &[0xAA; 14]);
    assert_eq!(vidya::host_string::read_gleam_string(&mem, 8).unwrap(), "héllo");
}
