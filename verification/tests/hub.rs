use nv1_ros::hub::{
    decode_frame, decoded_payload, ColorRange, FrameAssembler, FrameError, HubConfig, HubReport, ReportHandler,
    FRAME_CAPACITY,
};
use nv1_ros::vision::HsvThreshold;

fn feed(assembler: &mut FrameAssembler, bytes: &[u8]) -> Vec<Vec<u8>> {
    let mut frames = Vec::new();
    for b in bytes {
        if let Some(f) = assembler.push(*b) {
            frames.push(f);
        }
    }
    frames
}

fn padded(bytes: &[u8]) -> Vec<u8> {
    let mut v = bytes.to_vec();
    v.resize(FRAME_CAPACITY, 0);
    v
}

#[test]
fn assembler_completes_at_terminator() {
    let mut a = FrameAssembler::new();
    assert_eq!(a.push(3), None);
    assert_eq!(a.push(7), None);
    assert_eq!(a.push(8), None);
    assert_eq!(a.push(0), Some(padded(&[3, 7, 8, 0])));
    assert_eq!(a.push(0), Some(padded(&[0])));
}

#[test]
fn assembler_completes_when_full() {
    let mut a = FrameAssembler::new();
    let bytes: Vec<u8> = (1..=64).map(|i| i as u8).collect();
    let frames = feed(&mut a, &bytes);
    assert_eq!(frames, vec![bytes.clone()]);
    let frames = feed(&mut a, &[5, 0]);
    assert_eq!(frames, vec![padded(&[5, 0])]);
}

#[test]
fn postcard_frames_round_trip() {
    let value = (7u8, -3i16, 300u32, true, [0u8, 1, 0, 2]);
    let framed = postcard::to_stdvec_cobs(&value).unwrap();
    let plain = postcard::to_stdvec(&value).unwrap();
    let mut a = FrameAssembler::new();
    let frames = feed(&mut a, &framed);
    assert_eq!(frames.len(), 1);
    let payload = decode_frame(frames[0].clone()).unwrap();
    assert_eq!(payload, plain);
    assert_ne!(payload, frames[0]);
    let back: (u8, i16, u32, bool, [u8; 4]) = postcard::from_bytes(&payload).unwrap();
    assert_eq!(back, value);
}

#[test]
fn two_frames_back_to_back() {
    let first = postcard::to_stdvec_cobs(&(1u8, 0u8)).unwrap();
    let second = postcard::to_stdvec_cobs(&(0u16, 2u8)).unwrap();
    let mut stream = first.clone();
    stream.extend_from_slice(&second);
    let mut a = FrameAssembler::new();
    let frames = feed(&mut a, &stream);
    assert_eq!(frames.len(), 2);
    assert_eq!(decode_frame(frames[0].clone()).unwrap(), vec![1, 0]);
    assert_eq!(decode_frame(frames[1].clone()).unwrap(), vec![0, 2]);
}

#[test]
fn decode_unstuffs_zeros() {
    assert_eq!(decode_frame(padded(&[1, 1, 0])).unwrap(), vec![0]);
    assert_eq!(decode_frame(padded(&[3, 11, 22, 2, 33, 0])).unwrap(), vec![11, 22, 0, 33]);
}

#[test]
fn decode_of_empty_run_is_empty() {
    assert_eq!(decode_frame(padded(&[0])).unwrap(), Vec::<u8>::new());
}

#[test]
fn decode_rejects_bad_frames() {
    assert_eq!(decode_frame(vec![]), Err(FrameError::BadEncoding));
    assert_eq!(decode_frame(padded(&[5, 1, 0])), Err(FrameError::BadEncoding));
}

fn report(have_ball: bool, ball_aligned: bool, config: HubConfig) -> HubReport {
    HubReport { shutdown: false, reboot: false, have_ball, ball_aligned, config }
}

#[test]
fn kicker_fires_on_rising_edge_only() {
    let mut h = ReportHandler::new();
    let kicks: Vec<bool> = [
        (true, true),
        (true, true),
        (true, false),
        (true, true),
        (false, true),
        (true, true),
        (true, true),
    ]
    .iter()
    .map(|(b, a)| h.handle(&report(*b, *a, HubConfig::Unhandled)).kick)
    .collect();
    assert_eq!(kicks, vec![true, false, false, true, false, true, false]);
}

#[test]
fn report_flags_pass_through() {
    let mut h = ReportHandler::new();
    let a = h.handle(&HubReport {
        shutdown: true,
        reboot: false,
        have_ball: true,
        ball_aligned: false,
        config: HubConfig::Unhandled,
    });
    assert!(a.shutdown && !a.reboot && a.have_ball && !a.kick);
    assert_eq!(a.hsv_own, None);
    assert_eq!(a.hsv_opp, None);
    let a = h.handle(&HubReport {
        shutdown: false,
        reboot: true,
        have_ball: false,
        ball_aligned: true,
        config: HubConfig::Unhandled,
    });
    assert!(!a.shutdown && a.reboot && !a.have_ball && !a.kick);
}

#[test]
fn color_ranges_are_forwarded() {
    let c = ColorRange { h_min: 1, h_max: 2, s_min: 3, s_max: 4, v_min: 5, v_max: 6 };
    assert_eq!(c.to_message(), vec![1, 2, 3, 4, 5, 6]);
    let mut h = ReportHandler::new();
    let a = h.handle(&report(false, false, HubConfig::OpenCvOwn(c)));
    assert_eq!(a.hsv_own, Some(vec![1, 2, 3, 4, 5, 6]));
    assert_eq!(a.hsv_opp, None);
    let a = h.handle(&report(false, false, HubConfig::OpenCvOpp(c)));
    assert_eq!(a.hsv_own, None);
    assert_eq!(a.hsv_opp, Some(vec![1, 2, 3, 4, 5, 6]));
}

#[test]
fn forwarded_range_lands_positionally_in_threshold() {
    let c = ColorRange { h_min: 10, h_max: 20, s_min: 30, s_max: 40, v_min: 50, v_max: 60 };
    let mut t = HsvThreshold::new();
    assert!(t.apply_message(&c.to_message()));
    assert_eq!(t, HsvThreshold { h_min: 10, s_min: 20, v_min: 30, h_max: 40, s_max: 50, v_max: 60 });
}

#[test]
fn decoded_payload_keeps_the_decoded_prefix() {
    assert_eq!(decoded_payload(vec![4, 5, 6, 7], Some(2)), Ok(vec![4, 5]));
    assert_eq!(decoded_payload(vec![4, 5], Some(0)), Ok(vec![]));
    assert_eq!(decoded_payload(vec![4, 5], Some(9)), Ok(vec![4, 5]));
    assert_eq!(decoded_payload(vec![4, 5], None), Err(FrameError::BadEncoding));
}

#[test]
fn long_cobs_blocks_decode() {
    let data: Vec<u8> = (0..600u32).map(|i| (i % 256) as u8).collect();
    let mut frame = cobs::encode_vec(&data);
    frame.push(0);
    frame.extend_from_slice(&[0, 0, 0]);
    assert_eq!(decode_frame(frame).unwrap(), data);
    let ones = vec![1u8; 254];
    let mut frame = cobs::encode_vec(&ones);
    frame.push(0);
    assert_eq!(decode_frame(frame).unwrap(), ones);
}
