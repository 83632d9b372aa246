use remote_screen::media::{
    choose_hardware, corrected_latency, fit_video, gop_frames, hardware_encoder_name, pcr_advance,
    pipeline_text, ready_ts_batch, Encoder, MediaError, Settings, Source, TsBuffer,
};
use remote_screen::wfd::Profile;

fn settings(profile: Profile, encoder: Encoder) -> Settings {
    Settings {
        profile,
        encoder,
        width: 1920,
        height: 1080,
        fps: 60,
        idr_request_capability: false,
        pcr_lead_ms: 50,
    }
}

fn ms(n: u64) -> u64 {
    n * 1_000_000
}

#[test]
fn live_capture_correction_preserves_source_latency_bounds() {
    assert_eq!(
        corrected_latency(false, ms(7), Some(ms(40))),
        ((true, ms(7), Some(ms(40))), true)
    );
    assert_eq!(
        corrected_latency(true, ms(7), None),
        ((true, ms(7), None), false)
    );
}

#[test]
fn ts_batches_preserve_bytes_and_timestamp_without_waiting_for_more() {
    for count in [1usize, 3, 7, 15] {
        let list: Vec<TsBuffer> = (0..count)
            .map(|i| TsBuffer {
                bytes: vec![i as u8; 188],
                pts: Some(ms(42)),
                dts: None,
                duration: None,
                flags: 0,
            })
            .collect();
        let out = ready_ts_batch(&list, 0).unwrap();
        assert_eq!(out.len(), if count == 1 { 2 } else { 1 });
        let batch = &out[0];
        assert_eq!(batch.pts, Some(ms(42)));
        assert_eq!(batch.bytes.len(), count * 188);
        for i in 0..count {
            assert_eq!(&batch.bytes[i * 188..(i + 1) * 188], &[i as u8; 188]);
        }
        if count == 1 {
            assert_eq!(out[1].bytes.len(), 0);
        }
    }
}

#[test]
fn hevc_needs_the_hardware() {
    let hevc = settings(Profile::Hevc, Encoder::Auto);
    assert_eq!(choose_hardware(&hevc, true), Ok(true));
    assert_eq!(
        choose_hardware(&hevc, false),
        Err(MediaError::HevcNeedsHardware)
    );
    assert_eq!(
        MediaError::HevcNeedsHardware.text(),
        "HEVC requires the hardware VA encoder"
    );
    let software = settings(Profile::Baseline, Encoder::X264);
    assert_eq!(choose_hardware(&software, true), Ok(false));
    assert_eq!(hardware_encoder_name(Profile::Hevc), "vah265enc");
    assert_eq!(hardware_encoder_name(Profile::Rhp2), "vah264enc");
}

#[test]
fn key_frames_come_every_second_unless_they_can_be_asked_for() {
    assert_eq!(gop_frames(false, true, 60), 60);
    assert_eq!(gop_frames(true, true, 60), 1024);
    assert_eq!(gop_frames(true, false, 60), 2_147_483_647);
}

#[test]
fn the_clock_is_advanced_to_the_lead() {
    assert_eq!(pcr_advance(50), Ok(75));
    assert_eq!(pcr_advance(125), Ok(0));
    assert_eq!(pcr_advance(126), Err(MediaError::InvalidLead));
    assert_eq!(MediaError::InvalidLead.text(), "PCR lead must be 0..125ms");
}

#[test]
fn pictures_keep_their_shape_with_borders() {
    let text = fit_video(&settings(Profile::Hevc, Encoder::Vaapi), "NV12");
    assert!(text.contains("add-borders=true"));
    assert!(text.contains("width=1920,height=1080,framerate=60/1"));
    assert!(text.ends_with("format=NV12,colorimetry=bt709"));
    let text = fit_video(&settings(Profile::Baseline, Encoder::X264), "I420");
    assert!(text.ends_with("format=I420"));
}

#[test]
fn pipelines_send_to_the_target() {
    let text = pipeline_text(
        &settings(Profile::Hevc, Encoder::Vaapi),
        &Source::Desktop {
            fd: 7,
            node: 42,
            audio_sink: Some("remote_screen_1"),
        },
        ("192.168.49.1", 53000),
        Some(("192.168.49.1", 53001)),
        true,
        true,
    );
    assert!(text.contains("pipewiresrc"));
    assert!(text.contains("vah265enc"));
    assert!(text.contains("host=192.168.49.1 port=53000 bind-port=50000"));
    assert!(text.contains("host=192.168.49.1 port=53001"));
    assert!(text.contains("remote_screen_1.monitor"));
    let silent = pipeline_text(
        &settings(Profile::Baseline, Encoder::X264),
        &Source::Test { audio: false },
        ("127.0.0.1", 5000),
        None,
        false,
        false,
    );
    assert!(silent.contains("x264enc"));
    assert!(!silent.contains("audio_encoder"));
    assert!(!silent.contains("rtcp_out"));
}

#[test]
fn batches_are_advanced_as_a_whole() {
    let mut bytes = vec![0x55; 188];
    bytes[..6].copy_from_slice(&[0x47, 0x50, 0x11, 0x30, 7, 0x10]);
    bytes[6..12].copy_from_slice(&[0, 0, 0, 0, 0, 0]);
    let list = [TsBuffer {
        bytes: bytes.clone(),
        pts: Some(1),
        dts: Some(2),
        duration: Some(3),
        flags: 4,
    }];
    let out = ready_ts_batch(&list, 75).unwrap();
    // 75 ms are 6750 ticks.
    assert_eq!(&out[0].bytes[6..12], &[0, 0, 13, 47, 0, 0]);
    assert_eq!(
        (out[0].dts, out[0].duration, out[0].flags),
        (Some(2), Some(3), 4)
    );
    assert!(ready_ts_batch(&[], 75).unwrap().is_empty());
    let broken = [TsBuffer {
        bytes: vec![0; 188],
        pts: None,
        dts: None,
        duration: None,
        flags: 0,
    }];
    assert!(ready_ts_batch(&broken, 75).is_err());
}
