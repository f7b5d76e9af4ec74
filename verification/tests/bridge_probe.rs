use vole::error::VoleError;
use vole::media::bridge::probe::{choose_video_stream, parse_format, parse_stream_records, StreamInfo};
use vole::media::color::{
    ChromaLocation, ColorPrimaries, ColorRange, MatrixCoefficients, TransferCharacteristic,
};
use vole::media::meta::{FieldStructure, Orientation};

#[test]
fn stream_records_split_on_index() {
    let text = "\nindex=0\ncodec_name=h264\nwidth=320\nTAG:rotate=90\n\nindex=1\ncodec_name=png\nwidth=10\nTAG:rotate=90\n";
    let streams = parse_stream_records(text.as_bytes());
    assert_eq!(streams.len(), 2);
    assert_eq!(streams[0].index, 0);
    assert_eq!(streams[0].width, Some(320));
    assert_eq!(streams[0].orientation(), Orientation::Rotate90);
    assert_eq!(streams[1].index, 1);
}

#[test]
fn field_and_color_maps() {
    let s = StreamInfo {
        color_range: Some("tv".into()),
        color_space: Some("bt709".into()),
        color_transfer: Some("smpte2084".into()),
        color_primaries: Some("bt2020".into()),
        chroma_location: Some("topleft".into()),
        field_order: Some("tt".into()),
        sample_aspect_ratio: Some("4:3".into()),
        ..Default::default()
    };
    assert_eq!(s.color_range(), ColorRange::Limited);
    assert_eq!(s.matrix(), MatrixCoefficients::Bt709);
    assert_eq!(s.transfer(), TransferCharacteristic::Smpte2084);
    assert_eq!(s.primaries(), ColorPrimaries::Bt2020);
    assert_eq!(s.chroma_location(), ChromaLocation::TopLeft);
    assert_eq!(s.field_structure(), FieldStructure::InterlacedTopFieldFirst);
    assert_eq!(s.sar(), Some((4, 3)));
}

#[test]
fn stream_selection_prefers_default_video() {
    let a = StreamInfo {
        index: 0,
        codec_type: Some("video".into()),
        attached_pic: false,
        is_default: false,
        ..Default::default()
    };
    let b = StreamInfo {
        index: 1,
        codec_type: Some("video".into()),
        attached_pic: false,
        is_default: true,
        ..Default::default()
    };
    assert_eq!(choose_video_stream(&[a.clone(), b.clone()], None), Ok(1));
    assert_eq!(choose_video_stream(&[a.clone(), b.clone()], Some(0)), Ok(0));
    let c = StreamInfo {
        index: 2,
        codec_type: Some("video".into()),
        attached_pic: true,
        ..Default::default()
    };
    assert_eq!(
        choose_video_stream(&[c], None),
        Err(VoleError::BridgeProbeFailed)
    );
}

#[test]
fn unknown_values_stay_unspecified() {
    let s = StreamInfo {
        color_range: Some("unknown".into()),
        field_order: Some("weird".into()),
        sample_aspect_ratio: Some("0:1".into()),
        tags: vec![("ROTATE".into(), " -90 ".into()), ("rotate".into(), "180".into())],
        ..Default::default()
    };
    assert_eq!(s.color_range(), ColorRange::Unspecified);
    assert_eq!(s.field_structure(), FieldStructure::Unknown);
    assert_eq!(s.sar(), None);
    // The first rotate tag (any case) decides.
    assert_eq!(s.orientation(), Orientation::Rotate270);
    assert_eq!(StreamInfo::default().orientation(), Orientation::Normal);
    assert!(!StreamInfo::default().is_usable_video());
}

#[test]
fn explicit_selection_must_name_usable_video() {
    let a = StreamInfo {
        index: 4,
        codec_type: Some("audio".into()),
        ..Default::default()
    };
    assert_eq!(
        choose_video_stream(&[a], Some(4)),
        Err(VoleError::BridgeProbeFailed)
    );
    let v = StreamInfo {
        index: 7,
        codec_type: Some("video".into()),
        ..Default::default()
    };
    let w = StreamInfo {
        index: 3,
        codec_type: Some("video".into()),
        ..Default::default()
    };
    assert_eq!(choose_video_stream(&[v, w], None), Ok(3));
}

#[test]
fn format_record_is_read() {
    let f = parse_format(b"format_name=mov,mp4\nduration=1.5\nnb_streams=2\n");
    assert_eq!(f.container.as_deref(), Some("mov,mp4"));
    assert_eq!(f.duration.as_deref(), Some("1.5"));
    assert_eq!(f.nb_streams, Some(2));
    assert_eq!(f.bit_rate, None);
}

#[test]
fn format_fields_take_the_first_value_of_their_key() {
    let f = parse_format(
        b"junk line\n  format_name = matroska,webm \nformat_name=second\nstart_time=0.000\nbit_rate=N/A\nnb_streams=x\n",
    );
    assert_eq!(f.container.as_deref(), Some("matroska,webm"));
    assert_eq!(f.start_time.as_deref(), Some("0.000"));
    assert_eq!(f.bit_rate.as_deref(), Some("N/A"));
    assert_eq!(f.duration, None);
    assert_eq!(f.nb_streams, None);
}

#[test]
fn one_stream_per_index_line_with_its_own_fields() {
    let text = "codec_name=ignored\nindex=3\ncodec_type=video\nwidth=64\nindex=5\ncodec_type=audio\ndisposition.default=1\n";
    let streams = parse_stream_records(text.as_bytes());
    assert_eq!(streams.len(), 2);
    assert_eq!(streams[0].index, 3);
    assert_eq!(streams[0].codec_name, None);
    assert_eq!(streams[0].width, Some(64));
    assert!(!streams[0].is_default);
    assert_eq!(streams[1].index, 5);
    assert_eq!(streams[1].codec_type.as_deref(), Some("audio"));
    assert_eq!(streams[1].width, None);
    assert!(streams[1].is_default);
    assert!(parse_stream_records(b"width=1\n").is_empty());
}

#[test]
fn non_ascii_lines_leave_the_other_fields_intact() {
    let text = "index=0\nTAG:title=Caf\u{e9} \u{2014} t\u{f6}\ncodec_type=video\nwidth=320\nheight=240\npix_fmt=yuv420p\n";
    let streams = parse_stream_records(text.as_bytes());
    assert_eq!(streams.len(), 1);
    assert_eq!(streams[0].width, Some(320));
    assert_eq!(streams[0].height, Some(240));
    assert_eq!(streams[0].pix_fmt.as_deref(), Some("yuv420p"));
    let mut bytes = b"format_name=mp4\ncomment=".to_vec();
    bytes.extend_from_slice(&[0xff, 0xfe]);
    bytes.extend_from_slice(b"\nnb_streams=1\n");
    let f = parse_format(&bytes);
    assert_eq!(f.container.as_deref(), Some("mp4"));
    assert_eq!(f.nb_streams, Some(1));
}
