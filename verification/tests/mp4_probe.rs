use vidya::mp4_probe::{
    choose_track, count_samples, open_track, probe_header, probe_tracks, track_info, MediaKind,
    TrackInfo, TrackKind,
};

fn info(id: u32, kind: Option<TrackKind>, media: Result<MediaKind, String>) -> TrackInfo {
    TrackInfo {
        id,
        kind,
        media,
        width: 640,
        height: 360,
        sample_count: Some(30),
        timescale: 0,
        avcc: Some((3, vec![vec![0x67, 0x42]], vec![vec![0x68, 0xce]])),
    }
}

#[test]
fn a_header_error_is_refused_with_the_demuxer_text() {
    let e = probe_header(Err("ftyp not found".to_string())).err().unwrap();
    assert_eq!(e, "MP4 header: ftyp not found");
    let p = probe_header(Ok(vec![info(9, Some(TrackKind::Video), Ok(MediaKind::H264))])).unwrap();
    assert_eq!(p.track_id, 9);
}

#[test]
fn sample_counts_add_up_over_fragments() {
    assert_eq!(count_samples(&vec![], 17), Some(17));
    assert_eq!(count_samples(&vec![Some(3), None, Some(4)], 17), Some(7));
    assert_eq!(count_samples(&vec![None], 17), Some(0));
    assert_eq!(count_samples(&vec![Some(u32::MAX), Some(0)], 0), Some(u32::MAX));
    assert_eq!(count_samples(&vec![Some(u32::MAX), Some(1)], 0), None);
}

#[test]
fn the_first_video_track_is_chosen_before_any_h264_one() {
    let tracks = vec![
        info(1, Some(TrackKind::Audio), Ok(MediaKind::Aac)),
        info(2, None, Ok(MediaKind::H264)),
        info(3, Some(TrackKind::Video), Ok(MediaKind::H265)),
        info(4, Some(TrackKind::Video), Ok(MediaKind::H264)),
    ];
    assert_eq!(choose_track(&tracks), Some(2));
    let tracks = vec![
        info(1, Some(TrackKind::Audio), Ok(MediaKind::Aac)),
        info(2, None, Ok(MediaKind::H264)),
    ];
    assert_eq!(choose_track(&tracks), Some(1));
    let tracks = vec![info(1, Some(TrackKind::Audio), Ok(MediaKind::Aac))];
    assert_eq!(choose_track(&tracks), None);
    assert_eq!(probe_tracks(tracks).err().unwrap(), "No video track in MP4");
}

#[test]
fn codec_and_size_refusals() {
    let e = open_track(info(1, Some(TrackKind::Video), Ok(MediaKind::Vp9))).err().unwrap();
    assert_eq!(e, "Unsupported video codec in MP4: VP9");
    let e = open_track(info(1, Some(TrackKind::Video), Err("unsupported media type".into())))
        .err()
        .unwrap();
    assert_eq!(e, "Track media type: unsupported media type");
    let mut empty = info(1, Some(TrackKind::Video), Ok(MediaKind::H264));
    empty.sample_count = Some(0);
    assert_eq!(open_track(empty).err().unwrap(), "Empty video track");
    let mut flat = info(1, Some(TrackKind::Video), Ok(MediaKind::H264));
    flat.height = 0;
    assert_eq!(open_track(flat).err().unwrap(), "Empty video track");
    let mut huge = info(1, Some(TrackKind::Video), Ok(MediaKind::H264));
    huge.sample_count = None;
    assert_eq!(open_track(huge).err().unwrap(), "Track sample count overflows u32");
    let mut bare = info(1, Some(TrackKind::Video), Ok(MediaKind::H264));
    bare.avcc = None;
    assert_eq!(open_track(bare).err().unwrap(), "Track does not contain AVC1/avcC config");
}

#[test]
fn an_h264_track_opens_with_its_converter() {
    let p = probe_tracks(vec![
        info(1, Some(TrackKind::Audio), Ok(MediaKind::Aac)),
        info(7, Some(TrackKind::Video), Ok(MediaKind::H264)),
    ])
    .unwrap();
    assert_eq!((p.track_id, p.width, p.height, p.sample_count), (7, 640, 360, 30));
    // A zero timescale is read as one.
    assert_eq!(p.timescale, 1);
    let mut c = p.converter;
    let mut out = Vec::new();
    c.convert_packet(&[0, 0, 0, 2, 0x65, 0x88], &mut out);
    assert_eq!(out, vec![0, 0, 1, 0x67, 0x42, 0, 0, 1, 0x68, 0xce, 0, 0, 1, 0x65, 0x88]);
}

#[test]
fn track_info_reads_the_demuxed_track() {
    let mut track = mp4::Mp4Track {
        trak: Default::default(),
        trafs: Vec::new(),
        default_sample_duration: 0,
    };
    track.trak.tkhd.track_id = 5;
    track.trak.mdia.hdlr.handler_type = (*b"vide").into();
    track.trak.mdia.mdhd.timescale = 90000;
    track.trak.mdia.minf.stbl.stsz.sample_count = 12;
    track.trak.mdia.minf.stbl.stsd.avc1 = Some(Default::default());
    let avc1 = track.trak.mdia.minf.stbl.stsd.avc1.as_mut().unwrap();
    avc1.width = 320;
    avc1.height = 240;
    avc1.avcc.length_size_minus_one = 3;
    let i = track_info(&track);
    assert_eq!(i.id, 5);
    assert_eq!(i.kind, Some(TrackKind::Video));
    assert_eq!(i.media, Ok(MediaKind::H264));
    assert_eq!((i.width, i.height), (320, 240));
    assert_eq!(i.sample_count, Some(12));
    assert_eq!(i.timescale, 90000);
    assert_eq!(i.avcc.map(|c| c.0), Some(3));

    // A fragmented track counts the samples of its fragments' runs.
    track.trafs = vec![Default::default(), Default::default(), Default::default()];
    track.trafs[0].trun = Some(Default::default());
    track.trafs[0].trun.as_mut().unwrap().sample_count = 5;
    track.trafs[2].trun = track.trafs[0].trun.clone();
    assert_eq!(track_info(&track).sample_count, Some(10));
    track.trafs[2].trun.as_mut().unwrap().sample_count = u32::MAX;
    assert_eq!(track_info(&track).sample_count, None);
    track.trafs = Vec::new();

    track.trak.mdia.minf.stbl.stsd.avc1 = None;
    track.trak.mdia.hdlr.handler_type = (*b"soun").into();
    let i = track_info(&track);
    assert_eq!(i.kind, Some(TrackKind::Audio));
    assert!(i.media.is_err());
    assert!(i.avcc.is_none());
}
