use remote_screen::latency::{
    age, frame_keys, needs_bytes, pair_stage, pts_90k, rtp_payload, unwrapped_ns, video_pts, Paired, Samples,
    MAX_FRAMES, PES_OFFSET, WINDOW,
};

fn video_packet(wire_pts: u64) -> [u8; 188] {
    let mut packet = [0xff; 188];
    packet[..4].copy_from_slice(&[0x47, 0x50, 0x11, 0x30]);
    packet[4] = 7; // adaptation field
    let pes = &mut packet[12..];
    pes[..9].copy_from_slice(&[0, 0, 1, 0xe0, 0, 0, 0x80, 0x80, 5]);
    pes[9..14].copy_from_slice(&[
        0x21 | (((wire_pts >> 30) as u8 & 7) << 1),
        (wire_pts >> 22) as u8,
        ((wire_pts >> 14) as u8 & 0xfe) | 1,
        (wire_pts >> 7) as u8,
        ((wire_pts as u8) << 1) | 1,
    ]);
    packet
}

#[test]
fn video_pes_pts_matches_source_running_time_and_rejects_other_packets() {
    let ns = 1_234_567_890;
    let wire_pts = pts_90k(ns) + PES_OFFSET;
    let mut packet = video_packet(wire_pts);
    assert_eq!(video_pts(&packet), Some(pts_90k(ns)));
    let mut rtp = vec![0x80, 33, 0, 0, 0, 0, 0, 0, 0, 0, 0, 0];
    rtp.extend_from_slice(&packet);
    assert_eq!(video_pts(rtp_payload(&rtp).unwrap()), Some(pts_90k(ns)));
    packet[1] &= !0x40;
    assert_eq!(video_pts(&packet), None);
    packet[1] |= 0x40;
    packet[2] = 0;
    assert_eq!(video_pts(&packet), None);
    packet[2] = 0x11;
    packet[4] = 183;
    assert_eq!(video_pts(&packet), None);
}

#[test]
fn paired_times_use_same_frame_and_bound_unmatched_frames() {
    let mut paired = Paired::default();
    for pts in 0..WINDOW as u64 {
        for stage in 0..6 {
            let reports = paired.record(pts, stage, pts * 1000 + stage as u64 * 10);
            if pts == WINDOW as u64 - 1 && stage == 5 {
                assert!(reports.contains(&("capture->network-sink", [50; 3])));
                assert!(reports.contains(&("video-PES->network-sink", [10; 3])));
            }
            assert!(paired.record(pts, stage, 999999).is_empty());
        }
    }
    for pts in WINDOW as u64..5000 {
        paired.record(pts, 0, pts);
        assert!(paired.frames.len() <= MAX_FRAMES);
    }
}

#[test]
fn summaries_deduplicate_pts_and_bound_storage() {
    let mut samples = Samples::default();
    for cycle in 0..10 {
        for n in 0..WINDOW {
            let pts = (cycle * WINDOW + n) as u64;
            let result = samples.record(pts, n as i64 - 150);
            assert!(samples.record(pts, 100_000).is_none());
            if n == WINDOW - 1 {
                assert_eq!(result, Some([-1, 134, 149]));
                assert!(samples.ages.is_empty());
                assert!(samples.seen.is_empty());
            } else {
                assert!(result.is_none());
                assert_eq!(samples.ages.len(), n + 1);
                assert_eq!(samples.seen.len(), n + 1);
            }
        }
    }
}

#[test]
fn distances_go_the_shorter_way_round() {
    assert_eq!(unwrapped_ns(0, 90_000), 1_000_000_000);
    assert_eq!(unwrapped_ns(90_000, 0), -1_000_000_000);
    assert_eq!(unwrapped_ns((1 << 33) - 45_000, 45_000), 1_000_000_000);
    assert_eq!(pts_90k(1_000_000_000), 90_000);
}

#[test]
fn ages_that_do_not_fit_are_left_out() {
    assert_eq!(age(10, 25), Some(15));
    assert_eq!(age(25, 10), Some(-15));
    assert_eq!(age(0, u64::MAX), None);
}

#[test]
fn frames_are_known_by_their_timestamps_in_every_stage() {
    let ns = 2_000_000_000;
    let packet = video_packet(pts_90k(ns) + PES_OFFSET);
    let mut two = packet.to_vec();
    two.extend_from_slice(&packet);
    assert_eq!(frame_keys(4, &two), vec![pts_90k(ns), pts_90k(ns)]);
    assert!(frame_keys(5, &two).is_empty());
    let mut rtp = vec![0x80, 33, 0, 0, 0, 0, 0, 0, 0, 0, 0, 0];
    rtp.extend_from_slice(&packet);
    assert_eq!(frame_keys(5, &rtp), vec![pts_90k(ns)]);
}

#[test]
fn output_ages_and_offsets_fill_their_windows() {
    let mut paired = Paired::default();
    for n in 0..WINDOW as u64 {
        let key = n * 1500;
        let now = (key + 900) * 1_000_000_000 / 90_000;
        let reports = paired.record_output(key, now, Some(now));
        if n == WINDOW as u64 - 1 {
            assert_eq!(reports.len(), 2);
            assert_eq!(reports[0].0, "video-PES.source-PTS-age");
            assert_eq!(reports[1].0, "mux-outer-minus-video-PTS");
        } else {
            assert!(reports.is_empty());
        }
    }
}

#[test]
fn buffers_are_known_by_their_time_and_then_by_their_bytes() {
    let mut paired = Paired::default();
    for n in 0..WINDOW as u64 {
        let ns = n * 1_000_000_000 / 60;
        let key = pts_90k(ns);
        let packet = video_packet(key + PES_OFFSET);
        let mut rtp = vec![0x80, 33, 0, 0, 0, 0, 0, 0, 0, 0, 0, 0];
        rtp.extend_from_slice(&packet);
        let mut seen = Vec::new();
        seen.extend(paired.observe(0, &packet, Some(ns), ns));
        assert!(paired.observe(0, &packet, None, ns).is_empty());
        seen.extend(paired.observe(4, &packet, Some(ns), ns + 7));
        seen.extend(paired.observe(5, &rtp, None, ns + 9));
        assert!(paired.observe(5, &packet, Some(ns), ns + 9).is_empty());
        if n < WINDOW as u64 - 1 {
            assert!(seen.is_empty());
            continue;
        }
        let labels: Vec<&str> = seen.iter().map(|report| report.1).collect();
        assert_eq!(
            labels,
            [
                "video-PES.source-PTS-age",
                "mux-outer-minus-video-PTS",
                "video-PES->network-sink",
                "capture->network-sink"
            ]
        );
        assert!(seen.iter().all(|report| report.0 == key));
        assert_eq!(seen[2].2, [2, 2, 2]);
        assert_eq!(seen[3].2, [9, 9, 9]);
    }
}

#[test]
fn stages_are_known_by_their_labels() {
    assert!(pair_stage("no such stage").is_none());
    assert!(!needs_bytes(pair_stage("mux.video-input").unwrap()));
    assert!(needs_bytes(pair_stage("mux.src").unwrap()));
}
