use roomrtc::codec::h264::{
    check_encoder_input, frame_from_planes, yuv420_to_rgb_strided_reusable, DecodedFrame, DecodedPlanes, H264Decoder,
};
use roomrtc::codec::DecodeThreadMsg;

#[test]
fn grey_stays_grey() {
    let y = [128u8; 4];
    let u = [128u8; 1];
    let v = [128u8; 1];
    let mut out = vec![0u8; 12];
    yuv420_to_rgb_strided_reusable(&y, &u, &v, 2, 2, 2, 1, 1, &mut out);
    assert_eq!(out, vec![128u8; 12]);
}

#[test]
fn fixed_point_values_are_clamped() {
    let y = [255u8, 0];
    let u = [255u8];
    let v = [0u8];
    let mut out = vec![7u8; 9];
    yuv420_to_rgb_strided_reusable(&y, &u, &v, 2, 1, 2, 1, 1, &mut out);
    // Y=255, U=+127, V=-128: R=(65280-22912)>>8=165, G and B above 255
    assert_eq!(&out[0..3], &[165, 255, 255]);
    // Y=0: R=-22912>>8 <0 -> 0, G=(0+6060)>>8=23, B=28829>>8=112
    assert_eq!(&out[3..6], &[0, 23, 112]);
    // bytes past the frame are untouched
    assert_eq!(&out[6..9], &[7, 7, 7]);
}

#[test]
fn strides_select_rows() {
    // 1x2 frame with padded planes
    let y = [10u8, 99, 200, 99];
    let u = [128u8, 0];
    let v = [128u8, 0];
    let mut out = vec![0u8; 6];
    yuv420_to_rgb_strided_reusable(&y, &u, &v, 1, 2, 2, 2, 2, &mut out);
    assert_eq!(out, vec![10, 10, 10, 200, 200, 200]);
}

#[test]
fn decoded_frames_travel_in_messages() {
    let frame = DecodedFrame { data: vec![1, 2, 3], width: 1, height: 1 };
    let msg = DecodeThreadMsg::Frame { frame: frame.clone(), fps: Some(30), au_len: 100 };
    match msg {
        DecodeThreadMsg::Frame { frame: f, fps, au_len } => {
            assert_eq!(f.data, vec![1, 2, 3]);
            assert_eq!((fps, au_len), (Some(30), 100));
        }
        DecodeThreadMsg::Error { .. } => panic!("expected a frame"),
    }
}

#[test]
fn planes_convert_with_their_implied_strides() {
    // 2x3 frame: luma rows padded to 4, chroma rows (2 of them) padded to 2
    let planes = DecodedPlanes {
        y: vec![10, 20, 0, 0, 30, 40, 0, 0, 50, 60, 0, 0],
        u: vec![128, 9, 128, 9],
        v: vec![128, 9, 128, 9],
        width: 2,
        height: 3,
    };
    let mut buffer = vec![1u8; 5];
    let frame = frame_from_planes(&planes, &mut buffer).unwrap();
    assert_eq!((frame.width, frame.height), (2, 3));
    assert_eq!(
        frame.data,
        vec![10, 10, 10, 20, 20, 20, 30, 30, 30, 40, 40, 40, 50, 50, 50, 60, 60, 60]
    );
    assert_eq!(buffer, frame.data);
}

#[test]
fn short_planes_are_refused() {
    let planes = DecodedPlanes { y: vec![0; 3], u: vec![128], v: vec![128], width: 4, height: 2 };
    let mut buffer = vec![4u8, 5];
    assert!(frame_from_planes(&planes, &mut buffer).is_err());
    assert_eq!(buffer, vec![4, 5]);
    let empty = DecodedPlanes { y: vec![], u: vec![], v: vec![], width: 0, height: 0 };
    let frame = frame_from_planes(&empty, &mut buffer).unwrap();
    assert!(frame.data.is_empty());
}

#[test]
fn encoder_input_is_checked() {
    assert!(check_encoder_input(4, 2, 4, 2, 24).is_ok());
    assert_eq!(
        check_encoder_input(4, 2, 2, 4, 24).unwrap_err(),
        "Wrong dimensions: expected 4x2, got 2x4"
    );
    assert_eq!(
        check_encoder_input(4, 2, 4, 2, 23).unwrap_err(),
        "Wrong buffer size: expected 24, got 23"
    );
}

#[test]
fn encoded_frames_decode_to_rgb() {
    let mut encoder = openh264::encoder::Encoder::new().unwrap();
    let yuv = openh264::formats::YUVBuffer::new(16, 16);
    let bitstream = encoder.encode(&yuv).unwrap().to_vec();
    assert!(!bitstream.is_empty());
    let mut decoder = H264Decoder::new().unwrap();
    let frame = decoder.decode(&bitstream).unwrap();
    assert_eq!((frame.width, frame.height), (16, 16));
    assert_eq!(frame.data.len(), 16 * 16 * 3);
}
