use remote_screen::stream_check::{
    check_interval, check_maps, keyframe_due, Observed, StreamCheck, StreamError,
};
use remote_screen::wfd::Profile;

fn null_packet() -> Vec<u8> {
    let mut ts = vec![0xff; 188];
    ts[..4].copy_from_slice(&[0x47, 0x1f, 0xff, 0x10]);
    ts
}

// The start of a picture or of sound: a clock reference of zero and a timestamp.
fn pes(pid: u16, pts: u64) -> Vec<u8> {
    let mut ts = vec![0xff; 188];
    ts[..6].copy_from_slice(&[0x47, 0x40 | (pid >> 8) as u8, pid as u8, 0x30, 7, 0x10]);
    ts[6..12].copy_from_slice(&[0, 0, 0, 0, 0x7e, 0]);
    ts[12..21].copy_from_slice(&[0, 0, 1, 0xe0, 0, 0, 0x80, 0x80, 5]);
    ts[21..26].copy_from_slice(&[
        0x21 | (((pts >> 30) & 7) as u8) << 1,
        (pts >> 22) as u8,
        (((pts >> 15) & 127) as u8) << 1 | 1,
        (pts >> 7) as u8,
        ((pts & 127) as u8) << 1 | 1,
    ]);
    ts
}

fn program_map(video: u8, audio: u8) -> Vec<u8> {
    let mut ts = vec![0xff; 188];
    ts[..4].copy_from_slice(&[0x47, 0x40, 32, 0x10]);
    let streams = [
        [video, 0xf0, 0x11, 0xf0, 0],
        [audio, 0xf1, 0x00, 0xf0, 0],
    ];
    let length = 9 + 10 + 4;
    ts[4..17].copy_from_slice(&[
        0, 2, 0xb0, length, 0, 1, 0xc1, 0, 0, 0xf0, 0x11, 0xf0, 0,
    ]);
    ts[17..22].copy_from_slice(&streams[0]);
    ts[22..27].copy_from_slice(&streams[1]);
    ts
}

fn rtp(packets: &[Vec<u8>]) -> Vec<u8> {
    let mut data = vec![0x80, 33, 0, 0, 0, 0, 0, 0, 0, 0, 0, 0];
    for packet in packets {
        data.extend_from_slice(packet);
    }
    data
}

fn observed() -> Observed {
    Observed {
        profile: Profile::Hevc,
        fps: 60,
        seconds: 5,
        audio: true,
        requested: true,
        keys: 2,
        frames: 300,
        interval: 1024,
    }
}

fn good_stream() -> StreamCheck {
    let mut check = StreamCheck::default();
    for _ in 0..11 {
        let data = rtp(&[
            program_map(0x24, 0x0f),
            pes(4113, 4500),
            pes(4352, 4500),
            null_packet(),
            null_packet(),
            null_packet(),
            null_packet(),
        ]);
        assert!(check.can_count());
        assert!(check_maps(&data, 50));
        check.packet(&data, 50).unwrap();
    }
    check
}

#[test]
fn good_streams_are_accepted() {
    let check = good_stream();
    assert_eq!(
        (check.packets, check.full_packets, check.video_pes),
        (11, 11, 11)
    );
    assert_eq!((check.audio_pes, check.clock_lead_checks), (11, 22));
    assert_eq!(
        (check.video_type, check.audio_type),
        (Some(0x24), Some(0x0f))
    );
    assert_eq!(check.verdict(&observed()), Ok(()));
}

#[test]
fn wrong_streams_are_refused() {
    let check = good_stream();
    let judge = |o: Observed| check.verdict(&o);
    let o = observed();
    assert_eq!(
        judge(Observed { keys: 1, ..o }),
        Err(StreamError::NoRecoveryFrame)
    );
    assert_eq!(
        judge(Observed { keys: 3, ..o }),
        Err(StreamError::PeriodicFrames(3))
    );
    assert_eq!(
        judge(Observed { frames: 150, ..o }),
        Err(StreamError::TooFewFrames)
    );
    assert_eq!(
        judge(Observed { audio: false, ..o }),
        Err(StreamError::BadCounts)
    );
    assert_eq!(
        judge(Observed {
            profile: Profile::Baseline,
            ..o
        }),
        Err(StreamError::BadVideoType(Some(0x24)))
    );
    let fresh = StreamCheck::default();
    assert_eq!(fresh.verdict(&o), Err(StreamError::NoFullPackets));
    let untyped = StreamCheck {
        audio_type: None,
        ..good_stream()
    };
    assert_eq!(untyped.verdict(&o), Err(StreamError::BadAudioType(None)));
    let unclocked = StreamCheck {
        clock_lead_checks: 0,
        ..good_stream()
    };
    assert_eq!(unclocked.verdict(&o), Err(StreamError::NoLead));
}

#[test]
fn wrong_packets_are_refused() {
    let mut check = StreamCheck::default();
    assert_eq!(
        check.packet(&[0; 199], 50),
        Err(StreamError::BadGrouping)
    );
    let mut other = rtp(&[null_packet()]);
    other[1] = 96;
    assert_eq!(check.packet(&other, 50), Err(StreamError::BadGrouping));
    let mut version = rtp(&[null_packet()]);
    version[0] = 0x90;
    assert_eq!(check.packet(&version, 50), Err(StreamError::BadPacket));
    let mut unsynchronised = rtp(&[null_packet()]);
    unsynchronised[12] = 0;
    assert_eq!(check.packet(&unsynchronised, 50), Err(StreamError::BadSync));
    let late = rtp(&[pes(4113, 4501)]);
    assert_eq!(check.packet(&late, 50), Err(StreamError::BadLead(4501)));
    assert_eq!(
        StreamError::BadLead(4501).text(),
        "Unexpected PES/PCR lead: 4501 ticks"
    );
}

#[test]
fn program_maps_without_a_length_are_known() {
    let mut map = program_map(0x24, 0x0f);
    map[6] = 0xb0;
    map[7] = 0;
    assert!(!check_maps(&rtp(&[map.clone()]), 50));
    assert!(check_maps(&rtp(&[null_packet()]), 50));
    // What is refused before its map is looked at does not matter.
    let mut other = rtp(&[map.clone()]);
    other[1] = 34;
    assert!(check_maps(&other, 50));
    let mut check = StreamCheck::default();
    let late = rtp(&[pes(4352, 4500), pes(4113, 4501), map]);
    assert!(check_maps(&late, 50));
    assert_eq!(check.packet(&late, 50), Err(StreamError::BadLead(4501)));
    assert_eq!(
        (check.packets, check.audio_pes, check.video_pes),
        (1, 1, 0)
    );
    assert_eq!(check.clock_lead_checks, 1);
}

#[test]
fn wrong_packets_are_counted_as_far_as_they_are_right() {
    let mut check = StreamCheck::default();
    let mut other = rtp(&[null_packet()]);
    other[1] = 34;
    assert_eq!(check.packet(&other, 50), Err(StreamError::BadGrouping));
    assert_eq!(check, StreamCheck::default());
    let mut version = rtp(&vec![null_packet(); 7]);
    version[0] = 0x90;
    assert_eq!(check.packet(&version, 50), Err(StreamError::BadPacket));
    assert_eq!((check.packets, check.full_packets), (1, 1));
}

#[test]
fn key_frames_are_asked_for_once() {
    assert!(keyframe_due(3, false, 1000));
    assert!(!keyframe_due(2, false, 1000));
    assert!(!keyframe_due(3, true, 1000));
    assert!(!keyframe_due(3, false, 999));
    assert!(check_interval(1024, false).is_ok());
    assert!(check_interval(2_147_483_647, true).is_ok());
    assert_eq!(check_interval(60, false), Err(StreamError::BadInterval));
}
