use remote_screen::media::{Encoder, Settings};
use remote_screen::network::{NetworkError, Peer};
use remote_screen::program::{
    choose_output, ending, internal_output, Args, Command, Deed, Ending, Mirror, Reply, Run,
    RunError, Task,
};
use remote_screen::wfd::{Event, Ip, Profile, WfdError};

fn args(command: Command) -> Args {
    Args {
        command,
        tv: "OLED65C9".to_owned(),
        profile: Profile::Hevc,
        encoder: Encoder::Auto,
        mode: "1080p60".to_owned(),
        no_audio: false,
        legacy_pairing: false,
        pcr_lead_ms: 50,
        scan_seconds: 8,
        timeout: 120,
        test_seconds: 5,
        interface: None,
        seconds: 10,
    }
}

fn peers() -> Vec<Peer> {
    vec![Peer {
        name: "[LG] OLED65C9".to_owned(),
        mac: "aa:bb:cc:dd:ee:00".to_owned(),
        device: "/device".to_owned(),
        peer: "/peer".to_owned(),
    }]
}

fn say(s: &str) -> Task {
    Task::Say(s.to_owned())
}

fn words(s: &str) -> Reply {
    Reply::Text(s.to_owned())
}

fn monitors() -> Reply {
    words(r#"[{"name":"HDMI-A-1","disabled":false},{"name":"eDP-1"}]"#)
}

fn agreed() -> Reply {
    Reply::Agreed {
        capabilities: "wfd_video_formats: none".to_owned(),
        idr_request_capability: true,
    }
}

#[test]
fn defaults_are_verified_hevc_1080p60() {
    let settings = args(Command::Mirror).settings().unwrap();
    assert_eq!(settings.profile, Profile::Hevc);
    assert_eq!(
        (settings.width, settings.height, settings.fps),
        (1920, 1080, 60)
    );
}

#[test]
fn reject_incompatible_hevc_encoder() {
    let mut args = args(Command::Mirror);
    args.encoder = Encoder::X264;
    assert!(args.settings().is_err());
}

#[test]
fn only_the_baseline_profile_has_lesser_modes() {
    let mut lesser = args(Command::Mirror);
    lesser.mode = "720p60".to_owned();
    assert_eq!(lesser.settings(), Err(RunError::RequiresFullHd));
    assert_eq!(
        lesser.settings().unwrap_err().text(),
        "HEVC and RHP2 require --mode 1080p60"
    );
    lesser.profile = Profile::Baseline;
    lesser.encoder = Encoder::X264;
    assert_eq!(
        lesser.settings(),
        Ok(Settings {
            profile: Profile::Baseline,
            encoder: Encoder::X264,
            width: 1280,
            height: 720,
            fps: 60,
            idr_request_capability: false,
            pcr_lead_ms: 50,
        })
    );
    lesser.mode = "1080p30".to_owned();
    assert_eq!(lesser.settings().unwrap().fps, 30);
    lesser.profile = Profile::Hevc;
    lesser.mode = "1080p60".to_owned();
    assert_eq!(
        lesser.settings().unwrap_err().text(),
        "HEVC requires --encoder vaapi or auto"
    );
}

#[test]
fn built_in_monitors_are_known_by_their_connectors() {
    for name in ["eDP-1", "LVDS-1", "DSI-2"] {
        let list = format!("[{{\"name\":\"{name}\"}},{{\"name\":\"DP-1\"}}]");
        assert_eq!(internal_output(&list).unwrap(), name);
    }
    assert_eq!(
        internal_output(r#"[{"name":"eDP-1","disabled":true}]"#),
        Err(RunError::NotOneMonitor)
    );
    assert_eq!(
        internal_output(r#"[{"name":"eDP-1"},{"name":"eDP-2"}]"#),
        Err(RunError::NotOneMonitor)
    );
    for text in ["{}", "[1", ""] {
        let error = serde_json::from_str::<Vec<serde_json::Value>>(text).unwrap_err();
        let refused = internal_output(text).unwrap_err();
        assert_eq!(refused, RunError::InvalidMonitors(error.to_string()));
        assert_eq!(refused.text(), error.to_string());
    }
    assert_eq!(
        choose_output(&vec![
            (None, Some("eDP-1".to_owned())),
            (Some(true), Some("eDP-2".to_owned())),
            (Some(false), None)
        ]),
        Ok("eDP-1".to_owned())
    );
}

#[test]
fn sound_goes_to_the_display_once_it_plays() {
    let mut mirror = Mirror {
        audio: true,
        routed: false,
    };
    assert_eq!(mirror.handle(Event::Tick), vec![Deed::Poll]);
    assert_eq!(
        mirror.handle(Event::Play),
        vec![
            Deed::Play,
            Deed::Route,
            Deed::Say("Streaming: television requested PLAY.")
        ]
    );
    assert_eq!(mirror.handle(Event::Pause), vec![Deed::Pause]);
    assert_eq!(
        mirror.handle(Event::Play),
        vec![
            Deed::Play,
            Deed::Say("Streaming: television requested PLAY.")
        ]
    );
    assert_eq!(mirror.handle(Event::Idr), vec![Deed::Keyframe]);
    assert_eq!(
        mirror.handle(Event::Teardown),
        vec![Deed::Say("Ending the mirroring session.")]
    );
    let mut silent = Mirror {
        audio: false,
        routed: false,
    };
    assert!(!silent.handle(Event::Play).contains(&Deed::Route));
}

// A run up to the first connection.
fn connecting(args: Args) -> (Run, Task) {
    let (mut run, first) = Run::new(args).unwrap();
    assert_eq!(first, Task::Start);
    assert_eq!(run.advance(Reply::Done), Ok(Task::Lock));
    assert_eq!(
        run.advance(Reply::Done),
        Ok(Task::Discover { seconds: 8 })
    );
    assert_eq!(run.advance(Reply::Peers(peers())), Ok(Task::Listen));
    assert_eq!(run.advance(Reply::Done), Ok(Task::ReadMonitors));
    assert_eq!(
        run.advance(monitors()),
        Ok(say(
            "Select built-in monitor eDP-1 in the sharing dialog."
        ))
    );
    assert_eq!(
        run.advance(Reply::Done),
        Ok(Task::OpenPortal { timeout: 120 })
    );
    assert_eq!(
        run.advance(words("/session/1")),
        Ok(say(
            "Connecting to [LG] OLED65C9 (aa:bb:cc:dd:ee:00) with Hevc 1080p60"
        ))
    );
    assert!(matches!(
        run.advance(Reply::Done),
        Ok(Task::CheckAvailable(_))
    ));
    let task = run.advance(Reply::Done).unwrap();
    (run, task)
}

fn persistent(allow_pairing: bool) -> Task {
    Task::ConnectPersistent {
        mac: "aa:bb:cc:dd:ee:00".to_owned(),
        timeout: 120,
        allow_pairing,
    }
}

#[test]
fn mirroring_goes_from_the_display_to_the_end() {
    let (mut run, task) = connecting(args(Command::Mirror));
    assert_eq!(task, persistent(true));
    assert_eq!(
        run.advance(words("p2p-wlo1-1")),
        Ok(say("Wi-Fi Direct active: p2p-wlo1-1"))
    );
    match run.advance(Reply::Done) {
        Ok(Task::Negotiate(config)) => {
            assert_eq!(config.timeout_ms, 120_000);
            assert_eq!(config.expected_peer, Some(Ip::V4(0xc0a8_3101)));
            assert!(config.audio && !config.probe_codecs);
        }
        other => panic!("{other:?}"),
    }
    assert_eq!(
        run.advance(agreed()),
        Ok(say("Portal session: /session/1"))
    );
    assert_eq!(run.advance(Reply::Done), Ok(Task::OpenAudio));
    match run.advance(words("remote_screen_1")) {
        Ok(Task::StartMedia { settings, sink }) => {
            assert!(settings.idr_request_capability);
            assert_eq!(sink.as_deref(), Some("remote_screen_1"));
        }
        other => panic!("{other:?}"),
    }
    assert_eq!(
        run.advance(Reply::Done),
        Ok(say("Waiting for television PLAY; Ctrl+C stops mirroring."))
    );
    assert_eq!(run.advance(Reply::Done), Ok(Task::Serve));
    assert_eq!(
        run.advance(Reply::Served(601)),
        Ok(say("Session ended; 601 encoded frames."))
    );
    assert_eq!(run.advance(Reply::Done), Ok(Task::Finish));
}

#[test]
fn recovery_comes_once_without_a_new_pairing() {
    let (mut run, _) = connecting(args(Command::Mirror));
    run.advance(words("p2p-wlo1-1")).unwrap();
    run.advance(Reply::Done).unwrap();
    assert_eq!(
        run.advance(Reply::Refused(WfdError::InitialConnectionTimeout)),
        Ok(say("TV has not started RTSP; reconnecting the saved pairing once without new WPS consent."))
    );
    assert_eq!(run.advance(Reply::Done), Ok(Task::Release));
    assert!(matches!(
        run.advance(Reply::Done),
        Ok(Task::CheckAvailable(_))
    ));
    assert_eq!(run.advance(Reply::Done), Ok(persistent(false)));
    assert_eq!(
        run.advance(words("p2p-wlo1-2")),
        Ok(say("Saved Wi-Fi Direct connection restored: p2p-wlo1-2"))
    );
    assert!(matches!(run.advance(Reply::Done), Ok(Task::Negotiate(_))));
    let error = run
        .advance(Reply::Refused(WfdError::InitialConnectionTimeout))
        .unwrap_err();
    assert_eq!(
        error.text(),
        "TV did not start mirroring after saved-pairing recovery: Timed out waiting for TV RTSP connection"
    );
}

#[test]
fn other_refusals_end_the_run() {
    let (mut run, _) = connecting(args(Command::Mirror));
    run.advance(words("p2p-wlo1-1")).unwrap();
    run.advance(Reply::Done).unwrap();
    assert_eq!(
        run.advance(Reply::Refused(WfdError::Cancelled)),
        Err(RunError::NotNegotiated(WfdError::Cancelled))
    );
}

#[test]
fn legacy_pairing_is_warned_of_and_not_repeated() {
    let mut legacy = args(Command::Mirror);
    legacy.legacy_pairing = true;
    let (mut run, task) = connecting(legacy);
    assert_eq!(
        task,
        say("Legacy pairing selected: this can require repeated TV WPS confirmation.")
    );
    assert!(matches!(
        run.advance(Reply::Done),
        Ok(Task::ConnectLegacy { timeout: 120, .. })
    ));
    run.advance(words("p2p-wlo1-1")).unwrap();
    run.advance(Reply::Done).unwrap();
    assert_eq!(
        run.advance(Reply::Refused(WfdError::InitialConnectionTimeout)),
        Err(RunError::NotNegotiated(WfdError::InitialConnectionTimeout))
    );
}

#[test]
fn probes_share_nothing() {
    let (mut run, _) = Run::new(args(Command::ProbeCodecs)).unwrap();
    run.advance(Reply::Done).unwrap();
    run.advance(Reply::Done).unwrap();
    run.advance(Reply::Peers(peers())).unwrap();
    // No monitor is asked for.
    assert!(matches!(run.advance(Reply::Done), Ok(Task::Say(_))));
    run.advance(Reply::Done).unwrap();
    assert_eq!(run.advance(Reply::Done), Ok(persistent(true)));
    run.advance(words("p2p-wlo1-1")).unwrap();
    match run.advance(Reply::Done) {
        Ok(Task::Negotiate(config)) => assert!(config.probe_codecs),
        other => panic!("{other:?}"),
    }
    assert_eq!(
        run.advance(agreed()),
        Ok(say("wfd_video_formats: none"))
    );
    assert_eq!(run.advance(Reply::Done), Ok(Task::Finish));
}

#[test]
fn shorter_commands_take_their_own_way() {
    let mut measure = args(Command::Measure);
    assert_eq!(
        Run::new(args(Command::Measure)).err(),
        Some(RunError::NoInterface)
    );
    measure.interface = Some("p2p-wlo1-27".to_owned());
    let (mut run, task) = Run::new(measure).unwrap();
    assert_eq!(
        task,
        Task::Measure {
            interface: "p2p-wlo1-27".to_owned(),
            seconds: 10
        }
    );
    assert_eq!(run.advance(Reply::Done), Ok(Task::Finish));
    let (mut run, _) = Run::new(args(Command::Doctor)).unwrap();
    assert_eq!(run.advance(Reply::Done), Ok(Task::Doctor));
    let (mut run, _) = Run::new(args(Command::VerifyMedia)).unwrap();
    assert!(matches!(
        run.advance(Reply::Done),
        Ok(Task::VerifyMedia {
            seconds: 5,
            audio: true,
            ..
        })
    ));
    let (mut run, _) = Run::new(args(Command::Discover)).unwrap();
    assert_eq!(
        run.advance(Reply::Done),
        Ok(Task::Discover { seconds: 8 })
    );
    assert_eq!(
        run.advance(Reply::Peers(peers())),
        Ok(Task::ShowPeers(peers()))
    );
    let (mut run, _) = Run::new(args(Command::Mirror)).unwrap();
    run.advance(Reply::Done).unwrap();
    run.advance(Reply::Done).unwrap();
    assert_eq!(
        run.advance(Reply::Peers(Vec::new())),
        Err(RunError::NotOneDisplay(NetworkError::NotOneMatch(0)))
    );
    assert_eq!(run.advance(Reply::Served(1)), Err(RunError::Unexpected));
}

#[test]
fn stopping_is_no_failure() {
    assert_eq!(ending(false, true), Ending::Done);
    assert_eq!(ending(true, true), Ending::Stopped);
    assert_eq!(ending(true, false), Ending::Failed);
}
