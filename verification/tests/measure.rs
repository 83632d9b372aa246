use remote_screen::measure::{
    check_duration, goes_on, timestamp_at, video_pts, wait_ms, was_cancelled, MeasureError,
    Statistics, Summary,
};

const DESTINATION: [u8; 4] = [192, 168, 49, 1];
const DESTINATION_PORT: u16 = 53000;
const PTS_MASK: u64 = (1 << 33) - 1;

fn packet(pts: u64) -> Vec<u8> {
    let mut frame = vec![0u8; 14 + 20 + 8 + 12 + 188];
    frame[12..14].copy_from_slice(&[8, 0]);
    let ip = &mut frame[14..34];
    ip[0] = 0x45;
    ip[9] = 17;
    ip[2..4].copy_from_slice(&(228u16).to_be_bytes());
    ip[16..20].copy_from_slice(&DESTINATION);
    frame[36..38].copy_from_slice(&DESTINATION_PORT.to_be_bytes());
    frame[38..40].copy_from_slice(&(208u16).to_be_bytes());
    frame[42] = 0x80;
    frame[43] = 33;
    let ts = &mut frame[54..];
    ts.fill(0xff);
    ts[..4].copy_from_slice(&[0x47, 0x50, 0x11, 0x10]);
    ts[4..13].copy_from_slice(&[0, 0, 1, 0xe0, 0, 0, 0x80, 0x80, 5]);
    ts[13..18].copy_from_slice(&[
        0x21 | (((pts >> 30) & 7) as u8) << 1,
        (pts >> 22) as u8,
        (((pts >> 15) & 127) as u8) << 1 | 1,
        (pts >> 7) as u8,
        ((pts & 127) as u8) << 1 | 1,
    ]);
    frame
}

fn parsed(bytes: &[u8]) -> Vec<u64> {
    video_pts(bytes)
}

// Nanoseconds of a time in seconds.
fn at(seconds: f64) -> u64 {
    (seconds * 1e9).round() as u64
}

// The report that is shown for a summary.
fn report(summary: Summary) -> String {
    let wall = summary.wall_ns as f64 / 1e9;
    let intervals = (summary.frames - 1) as f64;
    format!(
        "Outgoing video: {} unique frames; wall interval={wall:.3}s; wall-fps={:.2}; timestamp-fps={:.2}",
        summary.frames,
        intervals / wall,
        intervals * 90000.0 / summary.span as f64
    )
}

#[test]
fn extracts_full_33_bit_pts_and_deduplicates() {
    for pts in [0, 1500, 90000, PTS_MASK] {
        assert_eq!(parsed(&packet(pts)), vec![pts]);
    }
    let mut stats = Statistics::default();
    stats.record(90000, at(1.0));
    stats.record(90000, at(1.001));
    stats.record(91500, at(1.0 + 1.0 / 60.0));
    assert_eq!(stats.seen.len(), 2);
    assert!(report(stats.summary().unwrap()).contains("timestamp-fps=60.00"));
    assert!(report(stats.summary().unwrap()).contains("wall-fps=60.00"));
}

#[test]
fn rejects_unrelated_malformed_and_truncated_packets() {
    let good = packet(12345);
    for end in 0..good.len() {
        assert!(parsed(&good[..end]).is_empty());
    }
    for (index, value) in [
        (30, 193),
        (37, 0),
        (43, 96),
        (20, 0x20),
        (56, 0x12),
        (57, 0x20),
        (67, 0x20),
        (38, 0xff),
    ] {
        let mut bad = good.clone();
        bad[index] = value;
        assert!(parsed(&bad).is_empty(), "mutation {index}");
    }
}

#[test]
fn handles_rtp_extension_and_adaptation_field() {
    let mut frame = packet(90000);
    frame[42] |= 0x10;
    frame.splice(54..54, [0xab, 0xcd, 0, 1, 0, 0, 0, 0]);
    frame[16..18].copy_from_slice(&(236u16).to_be_bytes());
    frame[38..40].copy_from_slice(&(216u16).to_be_bytes());
    assert_eq!(parsed(&frame), vec![90000]);
    let mut frame = packet(45000);
    let ts = &mut frame[54..];
    ts.copy_within(4..182, 10);
    ts[3] = 0x30;
    ts[4] = 5;
    ts[5..10].fill(0);
    assert_eq!(parsed(&frame), vec![45000]);
    frame[58] = 255;
    assert!(parsed(&frame).is_empty());
}

#[test]
fn handles_timestamp_wrap_without_retaining_payload() {
    let mut stats = Statistics::default();
    stats.record(PTS_MASK - 749, at(0.0));
    stats.record(750, at(1.0 / 60.0));
    assert!(report(stats.summary().unwrap()).contains("timestamp-fps=60.00"));
}

#[test]
fn summaries_need_frames_and_time() {
    let mut stats = Statistics::default();
    assert_eq!(stats.summary(), Err(MeasureError::NotEnoughFrames));
    stats.record(0, 5);
    assert_eq!(stats.summary(), Err(MeasureError::NotEnoughFrames));
    stats.record(1500, 5);
    assert_eq!(stats.summary(), Err(MeasureError::NoElapsedTime));
    stats.record(3000, 9);
    assert_eq!(
        stats.summary(),
        Ok(Summary {
            frames: 3,
            wall_ns: 4,
            span: 3000
        })
    );
    assert_eq!(
        MeasureError::NotEnoughFrames.text(),
        "Not enough outgoing video PES timestamps; check interface and negotiated UDP port"
    );
    assert_eq!(
        MeasureError::NoElapsedTime.text(),
        "Not enough elapsed time between video frames"
    );
}

#[test]
fn timestamps_read_back() {
    let pts: u64 = 0x1_2345_6789;
    let bytes = [
        0x21 | (((pts >> 30) & 7) as u8) << 1,
        (pts >> 22) as u8,
        (((pts >> 15) & 127) as u8) << 1 | 1,
        (pts >> 7) as u8,
        ((pts & 127) as u8) << 1 | 1,
    ];
    assert_eq!(timestamp_at(&bytes, 0), pts);
}

#[test]
fn measuring_goes_on_until_its_end() {
    assert!(check_duration(1).is_ok());
    assert!(goes_on(1, 2, false));
    assert!(!goes_on(2, 2, false));
    assert!(!goes_on(1, 2, true));
    // At most a tenth of a second at once, so that the user is heard.
    assert_eq!(wait_ms(0, 10_000_000_000), 100);
    assert_eq!(wait_ms(0, 7_000_000), 7);
    assert!(was_cancelled(&Statistics::default(), true));
    assert!(!was_cancelled(&Statistics::default(), false));
}
