use vidya::avcc::{Mp4BitstreamConverter, NalType};

const SPS: [u8; 2] = [0x67, 0x42];
const PPS: [u8; 2] = [0x68, 0xce];

fn converter() -> Mp4BitstreamConverter {
    Mp4BitstreamConverter::new(3, vec![SPS.to_vec()], vec![PPS.to_vec()])
}

/// A packet of 4-byte length-prefixed units.
fn packet(units: &[&[u8]]) -> Vec<u8> {
    let mut out = Vec::new();
    for u in units {
        out.extend_from_slice(&(u.len() as u32).to_be_bytes());
        out.extend_from_slice(u);
    }
    out
}

#[test]
fn nal_types_from_the_low_five_bits() {
    assert_eq!(NalType::from_byte(0x65), NalType::IdrSlice);
    assert_eq!(NalType::from_byte(0x41), NalType::Slice);
    assert_eq!(NalType::from_byte(0x67), NalType::Sps);
    assert_eq!(NalType::from_byte(0x68), NalType::Pps);
    assert_eq!(NalType::from_byte(0x60), NalType::Unspecified);
    assert_eq!(NalType::from_byte(0x06), NalType::Other);
}

#[test]
fn first_idr_gets_the_parameter_sets() {
    let mut c = converter();
    let mut out = Vec::new();
    c.convert_packet(&packet(&[&[0x65, 0x88, 0x84]]), &mut out);
    assert_eq!(
        out,
        vec![0, 0, 1, 0x67, 0x42, 0, 0, 1, 0x68, 0xce, 0, 0, 1, 0x65, 0x88, 0x84]
    );
    // The next IDR of the same picture is not new.
    c.convert_packet(&packet(&[&[0x65, 0x08]]), &mut out);
    assert_eq!(out, vec![0, 0, 1, 0x65, 0x08]);
}

#[test]
fn slices_pass_through_behind_start_codes() {
    let mut c = converter();
    let mut out = vec![9, 9];
    c.convert_packet(&packet(&[&[0x41, 0x9a], &[0x41, 0x9b, 0x01]]), &mut out);
    assert_eq!(out, vec![0, 0, 1, 0x41, 0x9a, 0, 0, 1, 0x41, 0x9b, 0x01]);
}

#[test]
fn in_band_parameter_sets_suppress_injection() {
    let mut c = converter();
    let mut out = Vec::new();
    c.convert_packet(&packet(&[&SPS, &PPS, &[0x65, 0x88]]), &mut out);
    assert_eq!(out, vec![0, 0, 1, 0x67, 0x42, 0, 0, 1, 0x68, 0xce, 0, 0, 1, 0x65, 0x88]);
}

#[test]
fn in_band_sps_alone_gets_the_pps() {
    let mut c = converter();
    let mut out = Vec::new();
    c.convert_packet(&packet(&[&[0x67, 0x01], &[0x65, 0x88]]), &mut out);
    assert_eq!(out, vec![0, 0, 1, 0x67, 0x01, 0, 0, 1, 0x68, 0xce, 0, 0, 1, 0x65, 0x88]);
}

#[test]
fn a_slice_after_an_idr_rearms_injection() {
    let mut c = converter();
    let mut out = Vec::new();
    c.convert_packet(&packet(&[&[0x65, 0x88]]), &mut out);
    c.convert_packet(&packet(&[&[0x41, 0x9a]]), &mut out);
    c.convert_packet(&packet(&[&[0x65, 0x88]]), &mut out);
    assert_eq!(out, vec![0, 0, 1, 0x67, 0x42, 0, 0, 1, 0x68, 0xce, 0, 0, 1, 0x65, 0x88]);
}

#[test]
fn a_cut_short_unit_ends_the_packet() {
    let mut c = converter();
    let mut out = Vec::new();
    let mut p = packet(&[&[0x41, 0x9a]]);
    p.extend_from_slice(&[0, 0, 0, 10, 0x41]);
    c.convert_packet(&p, &mut out);
    assert_eq!(out, vec![0, 0, 1, 0x41, 0x9a]);
    c.convert_packet(&[0, 0], &mut out);
    assert!(out.is_empty());
}

#[test]
fn config_errors_and_success() {
    let e = Mp4BitstreamConverter::from_avcc_config(None).err().unwrap();
    assert_eq!(e, "Track does not contain AVC1/avcC config");
    let e = Mp4BitstreamConverter::from_avcc_config(Some((255, vec![], vec![]))).err().unwrap();
    assert_eq!(e, "avcC length size does not fit a byte");
    assert!(Mp4BitstreamConverter::from_avcc_config(Some((1, vec![], vec![]))).is_ok());
}

#[test]
fn for_mp4_track_reads_the_avcc_box() {
    let mut track = mp4::Mp4Track {
        trak: Default::default(),
        trafs: Vec::new(),
        default_sample_duration: 0,
    };
    assert!(Mp4BitstreamConverter::for_mp4_track(&track).is_err());

    track.trak.mdia.minf.stbl.stsd.avc1 = Some(Default::default());
    let avc1 = track.trak.mdia.minf.stbl.stsd.avc1.as_mut().unwrap();
    avc1.avcc.length_size_minus_one = 1;
    avc1.avcc.sequence_parameter_sets = vec![(&SPS[..]).into()];
    avc1.avcc.picture_parameter_sets = vec![(&PPS[..]).into()];
    let mut c = Mp4BitstreamConverter::for_mp4_track(&track).unwrap();
    let mut out = Vec::new();
    // Two-byte length prefixes, as the box says.
    c.convert_packet(&[0, 2, 0x65, 0x88], &mut out);
    assert_eq!(out, vec![0, 0, 1, 0x67, 0x42, 0, 0, 1, 0x68, 0xce, 0, 0, 1, 0x65, 0x88]);
}
