//! One run of the program: what is done, and in which order.
use crate::json;
use crate::media::{Encoder, Settings};
use crate::network;
use crate::network::{NetworkError, Peer, PeerModel};
use crate::number;
use crate::text;
use crate::wfd;
use crate::wfd::{Config, Event, Ip, Profile, WfdError};
use vstd::prelude::*;

verus! {

/// What the user asks for.
#[derive(Clone, Copy, Debug, PartialEq, Eq, Structural)]
pub enum Command {
    Mirror,
    Discover,
    Doctor,
    ProbeCodecs,
    VerifyMedia,
    Measure,
}

/// The command line.
#[derive(Debug)]
pub struct Args {
    pub command: Command,
    /// A part of the display's name, or its address.
    pub tv: String,
    pub profile: Profile,
    pub encoder: Encoder,
    /// Resolution and rate: `1080p60`, `1080p30` or `720p60`.
    pub mode: String,
    pub no_audio: bool,
    /// Connect by way of NetworkManager.
    pub legacy_pairing: bool,
    pub pcr_lead_ms: u32,
    pub scan_seconds: u64,
    /// The longest that the user, the network and the display may each take, in seconds.
    pub timeout: u64,
    pub test_seconds: u64,
    pub interface: Option<String>,
    pub seconds: u64,
}

/// The command line, in a model.
pub ghost struct ArgsModel {
    pub command: Command,
    pub tv: Seq<char>,
    pub profile: Profile,
    pub encoder: Encoder,
    pub mode: Seq<char>,
    pub no_audio: bool,
    pub legacy_pairing: bool,
    pub pcr_lead_ms: u32,
    pub scan_seconds: u64,
    pub timeout: u64,
    pub test_seconds: u64,
    pub interface: Option<Seq<char>>,
    pub seconds: u64,
}

impl View for Args {
    type V = ArgsModel;

    open spec fn view(&self) -> ArgsModel {
        ArgsModel {
            command: self.command,
            tv: self.tv@,
            profile: self.profile,
            encoder: self.encoder,
            mode: self.mode@,
            no_audio: self.no_audio,
            legacy_pairing: self.legacy_pairing,
            pcr_lead_ms: self.pcr_lead_ms,
            scan_seconds: self.scan_seconds,
            timeout: self.timeout,
            test_seconds: self.test_seconds,
            interface: match self.interface {
                Some(s) => Some(s@),
                None => None,
            },
            seconds: self.seconds,
        }
    }
}

/// Why the program ends without success.
#[derive(Debug, PartialEq, Eq)]
pub enum RunError<T> {
    /// Nothing says where to measure.
    NoInterface,
    /// HEVC or RHP2 in a lesser mode.
    RequiresFullHd,
    /// HEVC with the software encoder.
    RequiresHardware,
    /// The compositor's answer is no list.
    InvalidMonitors(T),
    /// None or several built-in monitors.
    NotOneMonitor,
    /// None or several displays match.
    NotOneDisplay(NetworkError<T>),
    /// The display did not agree.
    NotNegotiated(WfdError<T>),
    /// The display did not agree after the connection was made anew, either.
    NotRecovered(WfdError<T>),
    /// A reply to another task.
    Unexpected,
}

impl RunError<String> {
    /// The error with its texts as sequences.
    pub open spec fn view(self) -> RunError<Seq<char>> {
        match self {
            RunError::NoInterface => RunError::NoInterface,
            RunError::RequiresFullHd => RunError::RequiresFullHd,
            RunError::RequiresHardware => RunError::RequiresHardware,
            RunError::InvalidMonitors(s) => RunError::InvalidMonitors(s@),
            RunError::NotOneMonitor => RunError::NotOneMonitor,
            RunError::NotOneDisplay(e) => RunError::NotOneDisplay(e.view()),
            RunError::NotNegotiated(e) => RunError::NotNegotiated(e.view()),
            RunError::NotRecovered(e) => RunError::NotRecovered(e.view()),
            RunError::Unexpected => RunError::Unexpected,
        }
    }

    /// The message shown to the user.
    pub fn text(&self) -> (r: String)
        ensures
            r@ == error_text(self.view()),
    {
        match self {
            RunError::NoInterface => "measure requires --interface p2p-wlo1-N".to_owned(),
            RunError::RequiresFullHd => "HEVC and RHP2 require --mode 1080p60".to_owned(),
            RunError::RequiresHardware => "HEVC requires --encoder vaapi or auto".to_owned(),
            RunError::InvalidMonitors(s) => s.clone(),
            RunError::NotOneMonitor => "Cannot identify exactly one built-in monitor".to_owned(),
            RunError::NotOneDisplay(e) => e.text(),
            RunError::NotNegotiated(e) => e.text(),
            RunError::NotRecovered(e) => {
                "TV did not start mirroring after saved-pairing recovery: ".to_owned().concat(
                    e.text().as_str(),
                )
            },
            RunError::Unexpected => "Reply to another task".to_owned(),
        }
    }
}

/// The text of each error.
pub open spec fn error_text(e: RunError<Seq<char>>) -> Seq<char> {
    match e {
        RunError::NoInterface => "measure requires --interface p2p-wlo1-N"@,
        RunError::RequiresFullHd => "HEVC and RHP2 require --mode 1080p60"@,
        RunError::RequiresHardware => "HEVC requires --encoder vaapi or auto"@,
        RunError::InvalidMonitors(s) => s,
        RunError::NotOneMonitor => "Cannot identify exactly one built-in monitor"@,
        RunError::NotOneDisplay(e) => network::error_text(e),
        RunError::NotNegotiated(e) => wfd::error_text(e),
        RunError::NotRecovered(e) => "TV did not start mirroring after saved-pairing recovery: "@
            + wfd::error_text(e),
        RunError::Unexpected => "Reply to another task"@,
    }
}

// ---------------------------------------------------------------------------
// Settings
// ---------------------------------------------------------------------------

/// Width, height and rate of each mode.
pub open spec fn mode_size(mode: Seq<char>) -> Option<(u32, u32, u32)> {
    if mode == "1080p60"@ {
        Some((1920, 1080, 60))
    } else if mode == "1080p30"@ {
        Some((1920, 1080, 30))
    } else if mode == "720p60"@ {
        Some((1280, 720, 60))
    } else {
        None
    }
}

/// The settings that a command line asks for. HEVC and RHP2 are for 1080p60 alone, and HEVC
/// needs the hardware.
pub open spec fn settings_of(args: ArgsModel) -> Result<Settings, RunError<Seq<char>>> {
    let (width, height, fps) = mode_size(args.mode)->Some_0;
    if args.profile != Profile::Baseline && args.mode != "1080p60"@ {
        Err(RunError::RequiresFullHd)
    } else if args.profile == Profile::Hevc && args.encoder == Encoder::X264 {
        Err(RunError::RequiresHardware)
    } else {
        Ok(
            Settings {
                profile: args.profile,
                encoder: args.encoder,
                width,
                height,
                fps,
                idr_request_capability: false,
                pcr_lead_ms: args.pcr_lead_ms,
            },
        )
    }
}

impl Args {
    /// The settings that the command line asks for.
    pub fn settings(&self) -> (r: Result<Settings, RunError<String>>)
        requires
            mode_size(self.mode@) is Some,
        ensures
            match settings_of(self@) {
                Ok(settings) => r is Ok && r->Ok_0 == settings,
                Err(e) => r is Err && r->Err_0.view() == e,
            },
    {
        let mode = self.mode.as_str();
        let full = text::same(mode, "1080p60");
        let (width, height, fps): (u32, u32, u32) = if full {
            (1920, 1080, 60)
        } else if text::same(mode, "1080p30") {
            (1920, 1080, 30)
        } else {
            (1280, 720, 60)
        };
        if self.profile != Profile::Baseline && !full {
            return Err(RunError::RequiresFullHd);
        }
        if self.profile == Profile::Hevc && self.encoder == Encoder::X264 {
            return Err(RunError::RequiresHardware);
        }
        Ok(
            Settings {
                profile: self.profile,
                encoder: self.encoder,
                width,
                height,
                fps,
                idr_request_capability: false,
                pcr_lead_ms: self.pcr_lead_ms,
            },
        )
    }
}

/// A profile as it is shown.
pub open spec fn profile_text(profile: Profile) -> Seq<char> {
    match profile {
        Profile::Hevc => "Hevc"@,
        Profile::Baseline => "Baseline"@,
        Profile::Rhp2 => "Rhp2"@,
    }
}

/// A profile as it is shown.
fn profile_name(profile: Profile) -> (r: &'static str)
    ensures
        r@ == profile_text(profile),
{
    match profile {
        Profile::Hevc => "Hevc",
        Profile::Baseline => "Baseline",
        Profile::Rhp2 => "Rhp2",
    }
}

// ---------------------------------------------------------------------------
// The built-in monitor
// ---------------------------------------------------------------------------

/// Whether an entry of the compositor's list is a built-in monitor that is in use, by the
/// name of its connector.
pub open spec fn is_built_in(entry: (Option<bool>, Option<Seq<char>>)) -> bool {
    &&& entry.0 != Some(true)
    &&& entry.1 is Some
    &&& text::starts_with(entry.1->Some_0, "eDP-"@) || text::starts_with(entry.1->Some_0, "LVDS-"@)
        || text::starts_with(entry.1->Some_0, "DSI-"@)
}

/// Where the built-in monitors stand among the first entries.
pub open spec fn built_in(entries: Seq<(Option<bool>, Option<Seq<char>>)>, n: int) -> Seq<int>
    decreases n,
{
    if n <= 0 {
        Seq::empty()
    } else {
        let before = built_in(entries, n - 1);
        if is_built_in(entries[n - 1]) {
            before.push(n - 1)
        } else {
            before
        }
    }
}

/// The name of the only built-in monitor.
pub open spec fn output_of(entries: Seq<(Option<bool>, Option<Seq<char>>)>) -> Result<
    Seq<char>,
    RunError<Seq<char>>,
> {
    let found = built_in(entries, entries.len() as int);
    if found.len() == 1 {
        Ok(entries[found[0]].1->Some_0)
    } else {
        Err(RunError::NotOneMonitor)
    }
}

/// The built-in monitors stand among the entries.
proof fn lemma_built_in(entries: Seq<(Option<bool>, Option<Seq<char>>)>, n: int)
    requires
        0 <= n <= entries.len(),
    ensures
        built_in(entries, n).len() <= n,
        forall|k: int|
            0 <= k < built_in(entries, n).len() ==> 0 <= #[trigger] built_in(entries, n)[k] < n
                && is_built_in(entries[built_in(entries, n)[k]]),
    decreases n,
{
    if n > 0 {
        lemma_built_in(entries, n - 1);
    }
}

/// The name of the only built-in monitor among the entries.
pub fn choose_output(entries: &Vec<(Option<bool>, Option<String>)>) -> (r: Result<
    String,
    RunError<String>,
>)
    ensures
        match output_of(json::entry_views(entries@)) {
            Ok(name) => r is Ok && r->Ok_0@ == name,
            Err(e) => r is Err && r->Err_0.view() == e,
        },
{
    let ghost all = json::entry_views(entries@);
    let mut names: Vec<String> = Vec::new();
    let mut i: usize = 0;
    while i < entries.len()
        invariant
            i <= entries@.len(),
            all == json::entry_views(entries@),
            names@.len() == built_in(all, i as int).len(),
            forall|k: int|
                0 <= k < names@.len() ==> (#[trigger] names@[k])@ == all[built_in(
                    all,
                    i as int,
                )[k]].1->Some_0,
        decreases entries@.len() - i,
    {
        proof {
            lemma_built_in(all, i as int);
            assert(all[i as int].0 == entries@[i as int].0);
        }
        let used = match entries[i].0 {
            Some(disabled) => !disabled,
            None => true,
        };
        match &entries[i].1 {
            Some(name) => {
                let chars = text::chars_of(name.as_str());
                let s = chars.as_slice();
                if used && (text::has_prefix(s, "eDP-") || text::has_prefix(s, "LVDS-")
                    || text::has_prefix(s, "DSI-")) {
                    names.push(name.clone());
                }
            },
            None => {},
        }
        i = i + 1;
    }
    if names.len() == 1 {
        Ok(names[0].clone())
    } else {
        Err(RunError::NotOneMonitor)
    }
}

/// The name of the only built-in monitor in the compositor's list.
pub fn internal_output(response: &str) -> (r: Result<String, RunError<String>>)
    ensures
        match json::json_list(response@, "disabled"@, "name"@) {
            Err(e) => r is Err && r->Err_0.view() == RunError::InvalidMonitors(e),
            Ok(entries) => match output_of(entries) {
                Ok(name) => r is Ok && r->Ok_0@ == name,
                Err(e) => r is Err && r->Err_0.view() == e,
            },
        },
{
    match json::read_list(response, "disabled", "name") {
        Ok(entries) => choose_output(&entries),
        Err(e) => Err(RunError::InvalidMonitors(e)),
    }
}

// ---------------------------------------------------------------------------
// What the display asks of the media
// ---------------------------------------------------------------------------

/// What is done for the display.
#[derive(Clone, Copy, Debug, PartialEq, Eq)]
pub enum Deed {
    Play,
    /// Send the sound of this computer to the display.
    Route,
    Pause,
    Keyframe,
    /// See whether the media still run.
    Poll,
    Say(&'static str),
}

/// What the display's wishes have come to.
#[derive(Clone, Copy, Debug, PartialEq, Eq, Structural)]
pub struct Mirror {
    /// Whether there is sound.
    pub audio: bool,
    /// Whether the sound goes to the display.
    pub routed: bool,
}

impl Mirror {
    /// What a wish of the display leads to. The sound is sent to the display when it first
    /// asks to play.
    pub open spec fn deeds(self, event: Event) -> Seq<Deed> {
        match event {
            Event::Play => if self.audio && !self.routed {
                seq![Deed::Play, Deed::Route, Deed::Say("Streaming: television requested PLAY.")]
            } else {
                seq![Deed::Play, Deed::Say("Streaming: television requested PLAY.")]
            },
            Event::Pause => seq![Deed::Pause],
            Event::Idr => seq![Deed::Keyframe],
            Event::Tick => seq![Deed::Poll],
            Event::Teardown => seq![Deed::Say("Ending the mirroring session.")],
        }
    }

    /// What a wish of the display leads to.
    pub fn handle(&mut self, event: Event) -> (r: Vec<Deed>)
        ensures
            r@ == old(self).deeds(event),
            final(self).audio == old(self).audio,
            final(self).routed == (old(self).routed || event == Event::Play),
    {
        let mut v: Vec<Deed> = Vec::new();
        match event {
            Event::Play => {
                v.push(Deed::Play);
                if !self.routed {
                    if self.audio {
                        v.push(Deed::Route);
                    }
                    self.routed = true;
                }
                v.push(Deed::Say("Streaming: television requested PLAY."));
            },
            Event::Pause => v.push(Deed::Pause),
            Event::Idr => v.push(Deed::Keyframe),
            Event::Tick => v.push(Deed::Poll),
            Event::Teardown => v.push(Deed::Say("Ending the mirroring session.")),
        }
        proof {
            assert(v@ =~= old(self).deeds(event));
        }
        v
    }
}

/// Where the wishes lead to, one after the other.
pub open spec fn mirrored(m: Mirror, events: Seq<Event>) -> Mirror
    decreases events.len(),
{
    if events.len() == 0 {
        m
    } else {
        let before = mirrored(m, events.drop_last());
        Mirror { routed: before.routed || events.last() == Event::Play, ..before }
    }
}

/// Whatever the display asks for, the sound is sent to it only when it asks to play, and
/// never again.
pub proof fn law_sound_is_routed_once(m: Mirror, events: Seq<Event>, event: Event)
    ensures
        mirrored(m, events).deeds(event).contains(Deed::Route) ==> event == Event::Play && m.audio
            && !m.routed && !events.contains(Event::Play),
    decreases events.len(),
{
    let now = mirrored(m, events);
    lemma_routed(m, events);
    if now.deeds(event).contains(Deed::Route) {
        let k = choose|k: int|
            0 <= k < now.deeds(event).len() && now.deeds(event)[k] == Deed::Route;
        assert(now.deeds(event)[k] == Deed::Route);
    }
}

/// The sound is on its way once the display has asked to play.
proof fn lemma_routed(m: Mirror, events: Seq<Event>)
    ensures
        mirrored(m, events).audio == m.audio,
        mirrored(m, events).routed == (m.routed || events.contains(Event::Play)),
    decreases events.len(),
{
    if events.len() > 0 {
        lemma_routed(m, events.drop_last());
        let before = events.drop_last();
        if before.contains(Event::Play) {
            let k = choose|k: int| 0 <= k < before.len() && before[k] == Event::Play;
            assert(events[k] == Event::Play);
        }
        if events.last() == Event::Play {
            assert(events[events.len() - 1] == Event::Play);
        }
        if events.contains(Event::Play) {
            let k = choose|k: int| 0 <= k < events.len() && events[k] == Event::Play;
            if k < before.len() {
                assert(before[k] == Event::Play);
            }
        }
    }
}

// ---------------------------------------------------------------------------
// The run
// ---------------------------------------------------------------------------

/// What is to be done next. Where it fails, the run ends with that failure.
#[derive(Debug, PartialEq, Eq)]
pub enum Task {
    /// Measure what is sent.
    Measure { interface: String, seconds: u64 },
    /// Make the media library ready.
    Start,
    /// Show what there is of what is needed.
    Doctor,
    /// Send test pictures to this computer and judge them.
    VerifyMedia { settings: Settings, seconds: u64, audio: bool },
    /// See that no other session runs, and open the log.
    Lock,
    /// Look for displays.
    Discover { seconds: u64 },
    ShowPeers(Vec<Peer>),
    /// Listen for the display.
    Listen,
    /// Ask the compositor for its monitors.
    ReadMonitors,
    /// Tell the user.
    Say(String),
    /// Ask the user for the screen.
    OpenPortal { timeout: u64 },
    /// See that no other connection is up.
    CheckAvailable(Peer),
    /// Connect by way of NetworkManager.
    ConnectLegacy { peer: Peer, timeout: u64 },
    /// Connect by way of the pairing service.
    ConnectPersistent { mac: String, timeout: u64, allow_pairing: bool },
    Negotiate(Config),
    /// Give the connection up.
    Release,
    OpenAudio,
    StartMedia { settings: Settings, sink: Option<String> },
    /// Do what the display asks for, until it or the user ends the session.
    Serve,
    /// Nothing more.
    Finish,
}

/// What is to be done next, in a model.
pub ghost enum TaskModel {
    Measure { interface: Seq<char>, seconds: u64 },
    Start,
    Doctor,
    VerifyMedia { settings: Settings, seconds: u64, audio: bool },
    Lock,
    Discover { seconds: u64 },
    ShowPeers(Seq<PeerModel>),
    Listen,
    ReadMonitors,
    Say(Seq<char>),
    OpenPortal { timeout: u64 },
    CheckAvailable(PeerModel),
    ConnectLegacy { peer: PeerModel, timeout: u64 },
    ConnectPersistent { mac: Seq<char>, timeout: u64, allow_pairing: bool },
    Negotiate(Config),
    Release,
    OpenAudio,
    StartMedia { settings: Settings, sink: Option<Seq<char>> },
    Serve,
    Finish,
}

/// Displays in a model.
pub open spec fn peer_views(v: Seq<Peer>) -> Seq<PeerModel> {
    Seq::new(v.len(), |i: int| v[i]@)
}

/// A text that may be there, in a model.
pub open spec fn text_view(s: Option<String>) -> Option<Seq<char>> {
    match s {
        Some(t) => Some(t@),
        None => None,
    }
}

impl View for Task {
    type V = TaskModel;

    open spec fn view(&self) -> TaskModel {
        match self {
            Task::Measure { interface, seconds } => TaskModel::Measure {
                interface: interface@,
                seconds: *seconds,
            },
            Task::Start => TaskModel::Start,
            Task::Doctor => TaskModel::Doctor,
            Task::VerifyMedia { settings, seconds, audio } => TaskModel::VerifyMedia {
                settings: *settings,
                seconds: *seconds,
                audio: *audio,
            },
            Task::Lock => TaskModel::Lock,
            Task::Discover { seconds } => TaskModel::Discover { seconds: *seconds },
            Task::ShowPeers(peers) => TaskModel::ShowPeers(peer_views(peers@)),
            Task::Listen => TaskModel::Listen,
            Task::ReadMonitors => TaskModel::ReadMonitors,
            Task::Say(s) => TaskModel::Say(s@),
            Task::OpenPortal { timeout } => TaskModel::OpenPortal { timeout: *timeout },
            Task::CheckAvailable(peer) => TaskModel::CheckAvailable(peer@),
            Task::ConnectLegacy { peer, timeout } => TaskModel::ConnectLegacy {
                peer: peer@,
                timeout: *timeout,
            },
            Task::ConnectPersistent { mac, timeout, allow_pairing } => {
                TaskModel::ConnectPersistent {
                    mac: mac@,
                    timeout: *timeout,
                    allow_pairing: *allow_pairing,
                }
            },
            Task::Negotiate(config) => TaskModel::Negotiate(*config),
            Task::Release => TaskModel::Release,
            Task::OpenAudio => TaskModel::OpenAudio,
            Task::StartMedia { settings, sink } => TaskModel::StartMedia {
                settings: *settings,
                sink: text_view(*sink),
            },
            Task::Serve => TaskModel::Serve,
            Task::Finish => TaskModel::Finish,
        }
    }
}

/// What came of a task.
#[derive(Debug)]
pub enum Reply {
    Done,
    /// The compositor's answer, the path of the portal's session, the interface of the
    /// connection or the name of the sound output.
    Text(String),
    Peers(Vec<Peer>),
    /// The display agreed: what it can do, and whether it asks for key frames.
    Agreed { capabilities: String, idr_request_capability: bool },
    Refused(WfdError<String>),
    /// The session is over, after this many pictures.
    Served(u64),
}

/// Which task is out.
#[derive(Clone, Copy, Debug, PartialEq, Eq, Structural)]
pub enum Phase {
    Starting,
    Locking,
    Discovering,
    Listening,
    Monitors,
    Asking,
    Opening,
    Announcing,
    Checking,
    Warning,
    Connecting,
    Connected,
    Negotiating,
    Retrying,
    Releasing,
    Probed,
    Sharing,
    OpeningAudio,
    StartingMedia,
    Waiting,
    Serving,
    Served,
    /// The task that is out is the last that does anything.
    Last,
    Over,
}

/// How far the program is.
#[derive(Debug)]
pub struct Run {
    args: Args,
    phase: Phase,
    settings: Settings,
    peer: Peer,
    portal: String,
    recovering: bool,
}

/// How far the program is, in a model.
pub ghost struct RunModel {
    pub args: ArgsModel,
    pub phase: Phase,
    pub settings: Settings,
    /// The display.
    pub peer: PeerModel,
    /// The path of the portal's session.
    pub portal: Seq<char>,
    /// Whether the connection is made anew.
    pub recovering: bool,
}

impl View for Run {
    type V = RunModel;

    closed spec fn view(&self) -> RunModel {
        RunModel {
            args: self.args@,
            phase: self.phase,
            settings: self.settings,
            peer: self.peer@,
            portal: self.portal@,
            recovering: self.recovering,
        }
    }
}

/// What a reply leads to.
pub ghost struct Step {
    pub state: RunModel,
    pub result: Result<TaskModel, RunError<Seq<char>>>,
}

/// A step that goes on.
pub open spec fn goes(s: RunModel, phase: Phase, task: TaskModel) -> Step {
    Step { state: RunModel { phase, ..s }, result: Ok(task) }
}

/// A step that ends the run.
pub open spec fn fails(s: RunModel, error: RunError<Seq<char>>) -> Step {
    Step { state: s, result: Err(error) }
}

/// The first task of a run.
pub open spec fn first_task(args: ArgsModel) -> Result<TaskModel, RunError<Seq<char>>> {
    if args.command == Command::Measure {
        match args.interface {
            None => Err(RunError::NoInterface),
            Some(interface) => Ok(TaskModel::Measure { interface, seconds: args.seconds }),
        }
    } else {
        match settings_of(args) {
            Err(e) => Err(e),
            Ok(_) => Ok(TaskModel::Start),
        }
    }
}

/// What is to be negotiated with the display.
pub open spec fn config_of(s: RunModel) -> Config {
    Config {
        profile: s.settings.profile,
        audio: !s.args.no_audio,
        width: s.settings.width,
        height: s.settings.height,
        fps: s.settings.fps,
        timeout_ms: (s.args.timeout * 1000) as u64,
        probe_codecs: s.args.command == Command::ProbeCodecs,
        expected_peer: Some(Ip::V4(0xc0a8_3101)),
    }
}

/// The display and the settings are told.
pub open spec fn announced(s: RunModel) -> Step {
    goes(
        s,
        Phase::Announcing,
        TaskModel::Say(
            "Connecting to "@ + s.peer.name + " ("@ + s.peer.mac + ") with "@ + profile_text(
                s.settings.profile,
            ) + " "@ + s.args.mode,
        ),
    )
}

/// What something done leads to.
pub open spec fn after_done(s: RunModel) -> Step {
    let discover = TaskModel::Discover { seconds: s.args.scan_seconds };
    match s.phase {
        Phase::Starting => match s.args.command {
            Command::Doctor => goes(s, Phase::Last, TaskModel::Doctor),
            Command::VerifyMedia => goes(
                s,
                Phase::Last,
                TaskModel::VerifyMedia {
                    settings: s.settings,
                    seconds: s.args.test_seconds,
                    audio: !s.args.no_audio,
                },
            ),
            Command::Discover => goes(s, Phase::Discovering, discover),
            _ => goes(s, Phase::Locking, TaskModel::Lock),
        },
        Phase::Locking => goes(s, Phase::Discovering, discover),
        Phase::Listening => if s.args.command == Command::ProbeCodecs {
            announced(s)
        } else {
            goes(s, Phase::Monitors, TaskModel::ReadMonitors)
        },
        Phase::Asking => goes(
            s,
            Phase::Opening,
            TaskModel::OpenPortal { timeout: s.args.timeout },
        ),
        Phase::Announcing => goes(s, Phase::Checking, TaskModel::CheckAvailable(s.peer)),
        Phase::Checking => if s.args.legacy_pairing && !s.recovering {
            goes(
                s,
                Phase::Warning,
                TaskModel::Say(
                    "Legacy pairing selected: this can require repeated TV WPS confirmation."@,
                ),
            )
        } else {
            goes(
                s,
                Phase::Connecting,
                TaskModel::ConnectPersistent {
                    mac: s.peer.mac,
                    timeout: s.args.timeout,
                    allow_pairing: !s.recovering,
                },
            )
        },
        Phase::Warning => goes(
            s,
            Phase::Connecting,
            TaskModel::ConnectLegacy { peer: s.peer, timeout: s.args.timeout },
        ),
        Phase::Connected => goes(s, Phase::Negotiating, TaskModel::Negotiate(config_of(s))),
        Phase::Retrying => goes(s, Phase::Releasing, TaskModel::Release),
        Phase::Releasing => goes(s, Phase::Checking, TaskModel::CheckAvailable(s.peer)),
        Phase::Sharing => if s.args.no_audio {
            goes(
                s,
                Phase::StartingMedia,
                TaskModel::StartMedia { settings: s.settings, sink: None },
            )
        } else {
            goes(s, Phase::OpeningAudio, TaskModel::OpenAudio)
        },
        Phase::StartingMedia => goes(
            s,
            Phase::Waiting,
            TaskModel::Say("Waiting for television PLAY; Ctrl+C stops mirroring."@),
        ),
        Phase::Waiting => goes(s, Phase::Serving, TaskModel::Serve),
        Phase::Probed => goes(s, Phase::Over, TaskModel::Finish),
        Phase::Served => goes(s, Phase::Over, TaskModel::Finish),
        Phase::Last => goes(s, Phase::Over, TaskModel::Finish),
        _ => fails(s, RunError::Unexpected),
    }
}

/// What a text leads to.
pub open spec fn after_text(s: RunModel, value: Seq<char>) -> Step {
    match s.phase {
        Phase::Monitors => match json::json_list(value, "disabled"@, "name"@) {
            Err(e) => fails(s, RunError::InvalidMonitors(e)),
            Ok(entries) => match output_of(entries) {
                Err(e) => fails(s, e),
                Ok(name) => goes(
                    s,
                    Phase::Asking,
                    TaskModel::Say(
                        "Select built-in monitor "@ + name + " in the sharing dialog."@,
                    ),
                ),
            },
        },
        Phase::Opening => announced(RunModel { portal: value, ..s }),
        Phase::Connecting => goes(
            s,
            Phase::Connected,
            TaskModel::Say(
                if s.recovering {
                    "Saved Wi-Fi Direct connection restored: "@
                } else {
                    "Wi-Fi Direct active: "@
                } + value,
            ),
        ),
        Phase::OpeningAudio => goes(
            s,
            Phase::StartingMedia,
            TaskModel::StartMedia { settings: s.settings, sink: Some(value) },
        ),
        _ => fails(s, RunError::Unexpected),
    }
}

/// What the displays that were found lead to.
pub open spec fn after_peers(s: RunModel, peers: Seq<Peer>) -> Step {
    let found = network::meant(
        network::lower_names(peers),
        network::macs(peers),
        network::unicode_lowercase(s.args.tv),
        peers.len() as int,
    );
    if s.phase != Phase::Discovering {
        fails(s, RunError::Unexpected)
    } else if s.args.command == Command::Discover {
        goes(s, Phase::Last, TaskModel::ShowPeers(peer_views(peers)))
    } else if found.len() == 1 {
        goes(RunModel { peer: peers[found[0]]@, ..s }, Phase::Listening, TaskModel::Listen)
    } else {
        fails(s, RunError::NotOneDisplay(NetworkError::NotOneMatch(found.len() as usize)))
    }
}

/// What an agreement leads to. A probe ends with it; no screen is shared.
pub open spec fn after_agreement(s: RunModel, capabilities: Seq<char>, idr: bool) -> Step {
    if s.phase != Phase::Negotiating {
        fails(s, RunError::Unexpected)
    } else if s.args.command == Command::ProbeCodecs {
        goes(s, Phase::Probed, TaskModel::Say(capabilities))
    } else {
        goes(
            RunModel { settings: Settings { idr_request_capability: idr, ..s.settings }, ..s },
            Phase::Sharing,
            TaskModel::Say("Portal session: "@ + s.portal),
        )
    }
}

/// What a refusal leads to. Where the display has not even called, the saved pairing is used
/// once more, without a new one.
pub open spec fn after_refusal(s: RunModel, error: WfdError<Seq<char>>) -> Step {
    if s.phase != Phase::Negotiating {
        fails(s, RunError::Unexpected)
    } else if s.recovering {
        fails(s, RunError::NotRecovered(error))
    } else if !s.args.legacy_pairing && error is InitialConnectionTimeout {
        goes(
            RunModel { recovering: true, ..s },
            Phase::Retrying,
            TaskModel::Say(
                "TV has not started RTSP; reconnecting the saved pairing once without new WPS consent."@,
            ),
        )
    } else {
        fails(s, RunError::NotNegotiated(error))
    }
}

/// What the end of the session leads to.
pub open spec fn after_session(s: RunModel, frames: int) -> Step {
    if s.phase != Phase::Serving {
        fails(s, RunError::Unexpected)
    } else {
        goes(
            s,
            Phase::Served,
            TaskModel::Say("Session ended; "@ + number::decimal(frames) + " encoded frames."@),
        )
    }
}

/// What a reply leads to.
pub open spec fn advanced(s: RunModel, reply: Reply) -> Step {
    match reply {
        Reply::Done => after_done(s),
        Reply::Text(value) => after_text(s, value@),
        Reply::Peers(peers) => after_peers(s, peers@),
        Reply::Agreed { capabilities, idr_request_capability } => after_agreement(
            s,
            capabilities@,
            idr_request_capability,
        ),
        Reply::Refused(error) => after_refusal(s, error.view()),
        Reply::Served(frames) => after_session(s, frames as int),
    }
}

/// Whether a result is the one that is expected.
pub open spec fn fulfils(
    r: Result<Task, RunError<String>>,
    expected: Result<TaskModel, RunError<Seq<char>>>,
) -> bool {
    match expected {
        Ok(task) => r is Ok && r->Ok_0@ == task,
        Err(e) => r is Err && r->Err_0.view() == e,
    }
}

impl Run {
    /// A run, and its first task.
    pub fn new(args: Args) -> (r: Result<(Run, Task), RunError<String>>)
        requires
            mode_size(args.mode@) is Some,
            args.timeout <= 600,
        ensures
            match first_task(args@) {
                Err(e) => r is Err && r->Err_0.view() == e,
                Ok(task) => {
                    &&& r is Ok
                    &&& r->Ok_0.1@ == task
                    &&& r->Ok_0.0@.args == args@
                    &&& r->Ok_0.0@.phase == if args.command == Command::Measure {
                        Phase::Last
                    } else {
                        Phase::Starting
                    }
                    &&& args.command != Command::Measure ==> settings_of(args@) == Ok::<
                        Settings,
                        RunError<Seq<char>>,
                    >(r->Ok_0.0@.settings)
                    &&& !r->Ok_0.0@.recovering
                    &&& in_order(r->Ok_0.0@)
                },
            },
    {
        let peer = Peer {
            name: String::new(),
            mac: String::new(),
            device: String::new(),
            peer: String::new(),
        };
        if args.command == Command::Measure {
            let interface = match &args.interface {
                None => {
                    return Err(RunError::NoInterface);
                },
                Some(interface) => interface.clone(),
            };
            let seconds: u64 = args.seconds;
            let settings = Settings {
                profile: args.profile,
                encoder: args.encoder,
                width: 0,
                height: 0,
                fps: 0,
                idr_request_capability: false,
                pcr_lead_ms: args.pcr_lead_ms,
            };
            let run = Run {
                args,
                phase: Phase::Last,
                settings,
                peer,
                portal: String::new(),
                recovering: false,
            };
            return Ok((run, Task::Measure { interface, seconds }));
        }
        let settings = args.settings()?;
        let run = Run {
            args,
            phase: Phase::Starting,
            settings,
            peer,
            portal: String::new(),
            recovering: false,
        };
        Ok((run, Task::Start))
    }

    fn say_announcement(&mut self) -> (r: Task)
        ensures
            final(self)@ == announced(old(self)@).state,
            Ok::<TaskModel, RunError<Seq<char>>>(r@) == announced(old(self)@).result,
    {
        let mut s = "Connecting to ".to_owned();
        s.append(self.peer.name.as_str());
        s.append(" (");
        s.append(self.peer.mac.as_str());
        s.append(") with ");
        s.append(profile_name(self.settings.profile));
        s.append(" ");
        s.append(self.args.mode.as_str());
        self.phase = Phase::Announcing;
        Task::Say(s)
    }

    fn on_done(&mut self) -> (r: Result<Task, RunError<String>>)
        requires
            in_order(old(self)@),
        ensures
            final(self)@ == after_done(old(self)@).state,
            fulfils(r, after_done(old(self)@).result),
    {
        match self.phase {
            Phase::Starting => match self.args.command {
                Command::Doctor => {
                    self.phase = Phase::Last;
                    Ok(Task::Doctor)
                },
                Command::VerifyMedia => {
                    self.phase = Phase::Last;
                    Ok(
                        Task::VerifyMedia {
                            settings: self.settings,
                            seconds: self.args.test_seconds,
                            audio: !self.args.no_audio,
                        },
                    )
                },
                Command::Discover => {
                    self.phase = Phase::Discovering;
                    Ok(Task::Discover { seconds: self.args.scan_seconds })
                },
                _ => {
                    self.phase = Phase::Locking;
                    Ok(Task::Lock)
                },
            },
            Phase::Locking => {
                self.phase = Phase::Discovering;
                Ok(Task::Discover { seconds: self.args.scan_seconds })
            },
            Phase::Listening => {
                if self.args.command == Command::ProbeCodecs {
                    return Ok(self.say_announcement());
                }
                self.phase = Phase::Monitors;
                Ok(Task::ReadMonitors)
            },
            Phase::Asking => {
                self.phase = Phase::Opening;
                Ok(Task::OpenPortal { timeout: self.args.timeout })
            },
            Phase::Announcing => {
                self.phase = Phase::Checking;
                Ok(Task::CheckAvailable(self.peer.copied()))
            },
            Phase::Checking => {
                if self.args.legacy_pairing && !self.recovering {
                    self.phase = Phase::Warning;
                    return Ok(
                        Task::Say(
                            "Legacy pairing selected: this can require repeated TV WPS confirmation.".to_owned(),
                        ),
                    );
                }
                self.phase = Phase::Connecting;
                Ok(
                    Task::ConnectPersistent {
                        mac: self.peer.mac.clone(),
                        timeout: self.args.timeout,
                        allow_pairing: !self.recovering,
                    },
                )
            },
            Phase::Warning => {
                self.phase = Phase::Connecting;
                Ok(Task::ConnectLegacy { peer: self.peer.copied(), timeout: self.args.timeout })
            },
            Phase::Connected => {
                self.phase = Phase::Negotiating;
                Ok(
                    Task::Negotiate(
                        Config {
                            profile: self.settings.profile,
                            audio: !self.args.no_audio,
                            width: self.settings.width,
                            height: self.settings.height,
                            fps: self.settings.fps,
                            timeout_ms: self.args.timeout * 1000,
                            probe_codecs: self.args.command == Command::ProbeCodecs,
                            expected_peer: Some(Ip::V4(0xc0a8_3101)),
                        },
                    ),
                )
            },
            Phase::Retrying => {
                self.phase = Phase::Releasing;
                Ok(Task::Release)
            },
            Phase::Releasing => {
                self.phase = Phase::Checking;
                Ok(Task::CheckAvailable(self.peer.copied()))
            },
            Phase::Sharing => {
                if self.args.no_audio {
                    self.phase = Phase::StartingMedia;
                    return Ok(Task::StartMedia { settings: self.settings, sink: None });
                }
                self.phase = Phase::OpeningAudio;
                Ok(Task::OpenAudio)
            },
            Phase::StartingMedia => {
                self.phase = Phase::Waiting;
                Ok(
                    Task::Say("Waiting for television PLAY; Ctrl+C stops mirroring.".to_owned()),
                )
            },
            Phase::Waiting => {
                self.phase = Phase::Serving;
                Ok(Task::Serve)
            },
            Phase::Probed => {
                self.phase = Phase::Over;
                Ok(Task::Finish)
            },
            Phase::Served => {
                self.phase = Phase::Over;
                Ok(Task::Finish)
            },
            Phase::Last => {
                self.phase = Phase::Over;
                Ok(Task::Finish)
            },
            _ => Err(RunError::Unexpected),
        }
    }

    fn on_text(&mut self, value: String) -> (r: Result<Task, RunError<String>>)
        ensures
            final(self)@ == after_text(old(self)@, value@).state,
            fulfils(r, after_text(old(self)@, value@).result),
    {
        match self.phase {
            Phase::Monitors => {
                let name = internal_output(value.as_str())?;
                let mut s = "Select built-in monitor ".to_owned();
                s.append(name.as_str());
                s.append(" in the sharing dialog.");
                self.phase = Phase::Asking;
                Ok(Task::Say(s))
            },
            Phase::Opening => {
                self.portal = value;
                Ok(self.say_announcement())
            },
            Phase::Connecting => {
                let mut s = if self.recovering {
                    "Saved Wi-Fi Direct connection restored: ".to_owned()
                } else {
                    "Wi-Fi Direct active: ".to_owned()
                };
                s.append(value.as_str());
                self.phase = Phase::Connected;
                Ok(Task::Say(s))
            },
            Phase::OpeningAudio => {
                self.phase = Phase::StartingMedia;
                Ok(Task::StartMedia { settings: self.settings, sink: Some(value) })
            },
            _ => Err(RunError::Unexpected),
        }
    }

    fn on_peers(&mut self, peers: Vec<Peer>) -> (r: Result<Task, RunError<String>>)
        ensures
            final(self)@ == after_peers(old(self)@, peers@).state,
            fulfils(r, after_peers(old(self)@, peers@).result),
    {
        match self.phase {
            Phase::Discovering => {},
            _ => {
                return Err(RunError::Unexpected);
            },
        }
        if self.args.command == Command::Discover {
            self.phase = Phase::Last;
            return Ok(Task::ShowPeers(peers));
        }
        match network::select_tv(peers.as_slice(), self.args.tv.as_str()) {
            Ok(peer) => {
                self.peer = peer.copied();
                self.phase = Phase::Listening;
                Ok(Task::Listen)
            },
            Err(e) => Err(RunError::NotOneDisplay(e)),
        }
    }

    fn on_agreement(&mut self, capabilities: String, idr: bool) -> (r: Result<
        Task,
        RunError<String>,
    >)
        ensures
            final(self)@ == after_agreement(old(self)@, capabilities@, idr).state,
            fulfils(r, after_agreement(old(self)@, capabilities@, idr).result),
    {
        match self.phase {
            Phase::Negotiating => {},
            _ => {
                return Err(RunError::Unexpected);
            },
        }
        if self.args.command == Command::ProbeCodecs {
            self.phase = Phase::Probed;
            return Ok(Task::Say(capabilities));
        }
        self.settings.idr_request_capability = idr;
        let mut s = "Portal session: ".to_owned();
        s.append(self.portal.as_str());
        self.phase = Phase::Sharing;
        Ok(Task::Say(s))
    }

    fn on_refusal(&mut self, error: WfdError<String>) -> (r: Result<Task, RunError<String>>)
        ensures
            final(self)@ == after_refusal(old(self)@, error.view()).state,
            fulfils(r, after_refusal(old(self)@, error.view()).result),
    {
        match self.phase {
            Phase::Negotiating => {},
            _ => {
                return Err(RunError::Unexpected);
            },
        }
        if self.recovering {
            return Err(RunError::NotRecovered(error));
        }
        if !self.args.legacy_pairing && wfd::is_initial_connection_timeout(&error) {
            self.recovering = true;
            self.phase = Phase::Retrying;
            return Ok(
                Task::Say(
                    "TV has not started RTSP; reconnecting the saved pairing once without new WPS consent.".to_owned(),
                ),
            );
        }
        Err(RunError::NotNegotiated(error))
    }

    fn on_end(&mut self, frames: u64) -> (r: Result<Task, RunError<String>>)
        ensures
            final(self)@ == after_session(old(self)@, frames as int).state,
            fulfils(r, after_session(old(self)@, frames as int).result),
    {
        match self.phase {
            Phase::Serving => {},
            _ => {
                return Err(RunError::Unexpected);
            },
        }
        let mut s = "Session ended; ".to_owned();
        s.append(number::decimal_text(frames).as_str());
        s.append(" encoded frames.");
        self.phase = Phase::Served;
        Ok(Task::Say(s))
    }

    /// What came of the task that is out: the next one, or why the run ends.
    pub fn advance(&mut self, reply: Reply) -> (r: Result<Task, RunError<String>>)
        requires
            in_order(old(self)@),
        ensures
            final(self)@ == advanced(old(self)@, reply).state,
            fulfils(r, advanced(old(self)@, reply).result),
            in_order(final(self)@),
    {
        proof {
            law_runs_stay_in_order(self@, reply);
        }
        match reply {
            Reply::Done => self.on_done(),
            Reply::Text(value) => self.on_text(value),
            Reply::Peers(peers) => self.on_peers(peers),
            Reply::Agreed { capabilities, idr_request_capability } => self.on_agreement(
                capabilities,
                idr_request_capability,
            ),
            Reply::Refused(error) => self.on_refusal(error),
            Reply::Served(frames) => self.on_end(frames),
        }
    }
}

// ---------------------------------------------------------------------------
// Laws of a run
// ---------------------------------------------------------------------------

/// The phases in which the screen is shared, or is about to be.
pub open spec fn is_sharing(phase: Phase) -> bool {
    phase == Phase::Monitors || phase == Phase::Asking || phase == Phase::Opening || phase
        == Phase::Sharing || phase == Phase::OpeningAudio || phase == Phase::StartingMedia || phase
        == Phase::Waiting || phase == Phase::Serving || phase == Phase::Served
}

/// The phases behind the user's consent to share the screen.
pub open spec fn is_behind_consent(phase: Phase) -> bool {
    phase == Phase::Announcing || phase == Phase::Checking || phase == Phase::Warning || phase
        == Phase::Connecting || phase == Phase::Connected || phase == Phase::Negotiating || phase
        == Phase::Retrying || phase == Phase::Releasing || phase == Phase::Probed || phase
        == Phase::Sharing || phase == Phase::OpeningAudio || phase == Phase::StartingMedia || phase
        == Phase::Waiting || phase == Phase::Serving || phase == Phase::Served || phase
        == Phase::Last || phase == Phase::Over
}

/// What holds in every run: the time fits, a probe shares nothing, and the connection is made
/// anew only through the pairing service.
pub open spec fn in_order(s: RunModel) -> bool {
    &&& s.args.timeout <= 600
    &&& s.args.command == Command::ProbeCodecs ==> !is_sharing(s.phase)
    &&& s.recovering ==> !s.args.legacy_pairing && is_behind_consent(s.phase)
    &&& s.phase == Phase::Retrying || s.phase == Phase::Releasing ==> s.recovering
    &&& s.phase == Phase::Warning ==> !s.recovering
}

/// Every step stays in order.
pub proof fn law_runs_stay_in_order(s: RunModel, reply: Reply)
    requires
        in_order(s),
    ensures
        in_order(advanced(s, reply).state),
{
}

/// A probe never asks for the screen and never starts the media.
pub proof fn law_probes_share_nothing(s: RunModel, reply: Reply)
    requires
        in_order(s),
        s.args.command == Command::ProbeCodecs,
        advanced(s, reply).result is Ok,
    ensures
        !(advanced(s, reply).result->Ok_0 is ReadMonitors),
        !(advanced(s, reply).result->Ok_0 is OpenPortal),
        !(advanced(s, reply).result->Ok_0 is OpenAudio),
        !(advanced(s, reply).result->Ok_0 is StartMedia),
        !(advanced(s, reply).result->Ok_0 is Serve),
{
}

/// The connection is made anew once at most, and never with a new pairing: the second
/// refusal ends the run.
pub proof fn law_recovery_comes_once_without_pairing(s: RunModel, reply: Reply)
    requires
        in_order(s),
        s.recovering,
    ensures
        advanced(s, reply).state.recovering,
        reply is Refused ==> advanced(s, reply).result is Err,
        advanced(s, reply).result is Ok && advanced(s, reply).result->Ok_0 is ConnectPersistent
            ==> !advanced(s, reply).result->Ok_0->ConnectPersistent_allow_pairing,
        advanced(s, reply).result is Ok ==> !(advanced(s, reply).result->Ok_0 is ConnectLegacy),
{
}

/// The user is asked for the screen once: behind the consent no step asks for it again.
pub proof fn law_consent_is_asked_once(s: RunModel, reply: Reply)
    requires
        is_behind_consent(s.phase),
    ensures
        is_behind_consent(advanced(s, reply).state.phase),
        advanced(s, reply).result is Ok ==> !(advanced(s, reply).result->Ok_0 is OpenPortal),
{
}

/// The media start only after the display has agreed.
pub proof fn law_media_follow_the_agreement(s: RunModel, reply: Reply)
    ensures
        s.phase != Phase::Sharing && advanced(s, reply).state.phase == Phase::Sharing
            ==> reply is Agreed && s.phase == Phase::Negotiating,
        s.phase != Phase::OpeningAudio && advanced(s, reply).state.phase == Phase::OpeningAudio
            ==> s.phase == Phase::Sharing,
        advanced(s, reply).result is Ok && advanced(s, reply).result->Ok_0 is StartMedia
            ==> s.phase == Phase::Sharing || s.phase == Phase::OpeningAudio,
        advanced(s, reply).result is Ok && advanced(s, reply).result->Ok_0 is Serve ==> s.phase
            == Phase::Waiting,
{
}

// ---------------------------------------------------------------------------
// The end
// ---------------------------------------------------------------------------

/// How the program ends.
#[derive(Clone, Copy, Debug, PartialEq, Eq, Structural)]
pub enum Ending {
    Done,
    /// As the user wished.
    Stopped,
    Failed,
}

/// How the program ends: a failure after the user has stopped it is none.
pub fn ending(failed: bool, stopped: bool) -> (r: Ending)
    ensures
        r == if !failed {
            Ending::Done
        } else if stopped {
            Ending::Stopped
        } else {
            Ending::Failed
        },
{
    if !failed {
        Ending::Done
    } else if stopped {
        Ending::Stopped
    } else {
        Ending::Failed
    }
}

// ---------------------------------------------------------------------------
// Laws of what is asked for
// ---------------------------------------------------------------------------

/// Every mode has its size and rate, and the settings are those of the command line. HEVC and
/// RHP2 are for 1080p60 alone, and HEVC for the hardware alone.
pub proof fn law_settings_are_those_asked_for(args: ArgsModel)
    requires
        mode_size(args.mode) is Some,
    ensures
        ({
            let settings = settings_of(args)->Ok_0;
            let lesser = args.mode == "1080p30"@ || args.mode == "720p60"@;
            &&& args.mode == "1080p60"@ || lesser
            &&& settings_of(args) is Err <==> (lesser && (args.profile == Profile::Hevc
                || args.profile == Profile::Rhp2)) || (args.profile == Profile::Hevc && args.encoder
                == Encoder::X264)
            &&& settings_of(args) is Ok ==> {
                &&& args.mode == "1080p60"@ ==> settings.width == 1920 && settings.height == 1080
                    && settings.fps == 60
                &&& args.mode == "1080p30"@ ==> settings.width == 1920 && settings.height == 1080
                    && settings.fps == 30
                &&& args.mode == "720p60"@ ==> settings.width == 1280 && settings.height == 720
                    && settings.fps == 60
                &&& settings.profile == args.profile && settings.encoder == args.encoder
                &&& settings.pcr_lead_ms == args.pcr_lead_ms
                &&& !settings.idr_request_capability
            }
        }),
{
    reveal_strlit("1080p60");
    reveal_strlit("1080p30");
    reveal_strlit("720p60");
    assert("1080p60"@[5] == '6' && "1080p30"@[5] == '3');
    assert("720p60"@.len() == 6 && "1080p60"@.len() == 7 && "1080p30"@.len() == 7);
}

/// What is negotiated is what the settings say, with sound unless it is not wanted, within the
/// time that the user gives, and with the owner of the group alone.
pub proof fn law_what_is_negotiated(s: RunModel)
    requires
        in_order(s),
        s.phase == Phase::Connected,
    ensures
        advanced(s, Reply::Done).result is Ok,
        advanced(s, Reply::Done).result->Ok_0 is Negotiate,
        ({
            let config = advanced(s, Reply::Done).result->Ok_0->Negotiate_0;
            &&& config.profile == s.settings.profile
            &&& config.width == s.settings.width
            &&& config.height == s.settings.height
            &&& config.fps == s.settings.fps
            &&& config.audio != s.args.no_audio
            &&& config.timeout_ms == s.args.timeout * 1000
            &&& config.probe_codecs <==> s.args.command == Command::ProbeCodecs
            &&& config.expected_peer is Some && config.expected_peer->Some_0 is V4
            &&& config.expected_peer->Some_0->V4_0 == ((192 * 256 + 168) * 256 + 49) * 256 + 1
        }),
{
}

/// The media start as they were agreed: with key frames on request where the display asks for
/// them, and with the sound output, which is opened first, unless there is no sound.
pub proof fn law_media_start_as_agreed(s: RunModel, capabilities: String, idr: bool, sink: String)
    requires
        s.phase == Phase::Negotiating,
        s.args.command != Command::ProbeCodecs,
    ensures
        ({
            let agreed = advanced(
                s,
                Reply::Agreed { capabilities, idr_request_capability: idr },
            );
            let shared = advanced(agreed.state, Reply::Done);
            let opened = advanced(shared.state, Reply::Text(sink));
            let wanted = Settings { idr_request_capability: idr, ..s.settings };
            &&& agreed.result == Ok::<TaskModel, RunError<Seq<char>>>(
                TaskModel::Say("Portal session: "@ + s.portal),
            )
            &&& s.args.no_audio ==> shared.result == Ok::<TaskModel, RunError<Seq<char>>>(
                TaskModel::StartMedia { settings: wanted, sink: None },
            )
            &&& !s.args.no_audio ==> shared.result == Ok::<TaskModel, RunError<Seq<char>>>(
                TaskModel::OpenAudio,
            ) && opened.result == Ok::<TaskModel, RunError<Seq<char>>>(
                TaskModel::StartMedia { settings: wanted, sink: Some(sink@) },
            )
        }),
{
}

/// Every command takes its own way: a measurement stands alone, a check of this computer and one
/// of the media do nothing else, a search shows what it finds, and only mirroring and the probe
/// take the lock.
pub proof fn law_commands_take_their_way(s: RunModel, peers: Vec<Peer>)
    requires
        s.phase == Phase::Starting,
    ensures
        ({
            let step = advanced(s, Reply::Done);
            let seconds = s.args.scan_seconds;
            &&& s.args.command == Command::Doctor ==> step.result == Ok::<
                TaskModel,
                RunError<Seq<char>>,
            >(TaskModel::Doctor)
            &&& s.args.command == Command::VerifyMedia ==> step.result == Ok::<
                TaskModel,
                RunError<Seq<char>>,
            >(
                TaskModel::VerifyMedia {
                    settings: s.settings,
                    seconds: s.args.test_seconds,
                    audio: !s.args.no_audio,
                },
            )
            &&& s.args.command == Command::Discover ==> step.result == Ok::<
                TaskModel,
                RunError<Seq<char>>,
            >(TaskModel::Discover { seconds }) && advanced(step.state, Reply::Peers(peers)).result
                == Ok::<TaskModel, RunError<Seq<char>>>(TaskModel::ShowPeers(peer_views(peers@)))
            &&& s.args.command == Command::Mirror || s.args.command == Command::ProbeCodecs
                ==> step.result == Ok::<TaskModel, RunError<Seq<char>>>(TaskModel::Lock) && advanced(
                step.state,
                Reply::Done,
            ).result == Ok::<TaskModel, RunError<Seq<char>>>(TaskModel::Discover { seconds })
        }),
        s.args.command == Command::Measure ==> (s.args.interface matches Some(interface)
            ==> first_task(s.args) == Ok::<TaskModel, RunError<Seq<char>>>(
            TaskModel::Measure { interface, seconds: s.args.seconds },
        )),
        s.args.command == Command::Measure && s.args.interface is None ==> first_task(s.args)
            == Err::<TaskModel, RunError<Seq<char>>>(RunError::NoInterface),
{
}

/// The connection is made with the display that was found, through the pairing service, which may
/// pair anew the first time; or, where that is asked for, in the old way behind a warning.
pub proof fn law_connections_go_to_the_display(s: RunModel)
    requires
        in_order(s),
        s.phase == Phase::Announcing,
        !s.recovering,
    ensures
        ({
            let checked = advanced(s, Reply::Done);
            let next = advanced(checked.state, Reply::Done);
            let last = advanced(next.state, Reply::Done);
            &&& checked.result == Ok::<TaskModel, RunError<Seq<char>>>(
                TaskModel::CheckAvailable(s.peer),
            )
            &&& !s.args.legacy_pairing ==> next.result == Ok::<TaskModel, RunError<Seq<char>>>(
                TaskModel::ConnectPersistent {
                    mac: s.peer.mac,
                    timeout: s.args.timeout,
                    allow_pairing: true,
                },
            )
            &&& s.args.legacy_pairing ==> next.result is Ok && next.result->Ok_0 is Say
                && last.result == Ok::<TaskModel, RunError<Seq<char>>>(
                TaskModel::ConnectLegacy { peer: s.peer, timeout: s.args.timeout },
            )
        }),
{
}

/// Where the display does not call, the connection is given up, the display is looked for again
/// and the saved pairing is used without a new one; any other refusal ends the run.
pub proof fn law_a_silent_display_is_called_once_more(s: RunModel, error: WfdError<String>)
    requires
        in_order(s),
        s.phase == Phase::Negotiating,
        !s.recovering,
    ensures
        ({
            let told = advanced(s, Reply::Refused(error));
            let released = advanced(told.state, Reply::Done);
            let checked = advanced(released.state, Reply::Done);
            let again = advanced(checked.state, Reply::Done);
            let silent = error.view() is InitialConnectionTimeout && !s.args.legacy_pairing;
            &&& !silent ==> told.result == Err::<TaskModel, RunError<Seq<char>>>(
                RunError::NotNegotiated(error.view()),
            )
            &&& silent ==> {
                &&& told.result is Ok && told.result->Ok_0 is Say
                &&& released.result == Ok::<TaskModel, RunError<Seq<char>>>(TaskModel::Release)
                &&& checked.result == Ok::<TaskModel, RunError<Seq<char>>>(
                    TaskModel::CheckAvailable(s.peer),
                )
                &&& again.result == Ok::<TaskModel, RunError<Seq<char>>>(
                    TaskModel::ConnectPersistent {
                        mac: s.peer.mac,
                        timeout: s.args.timeout,
                        allow_pairing: false,
                    },
                )
            }
        }),
{
}

/// The built-in monitor is the only one in use whose connector is one for built-in monitors.
pub proof fn law_the_only_built_in_monitor(
    entries: Seq<(Option<bool>, Option<Seq<char>>)>,
    i: int,
)
    requires
        0 <= i < entries.len(),
        entries[i].1 is Some,
        forall|k: int|
            0 <= k < entries.len() ==> (({
                let (disabled, name) = #[trigger] entries[k];
                &&& disabled != Some(true)
                &&& name is Some
                &&& text::starts_with(name->Some_0, "eDP-"@) || text::starts_with(
                    name->Some_0,
                    "LVDS-"@,
                ) || text::starts_with(name->Some_0, "DSI-"@)
            }) <==> k == i),
    ensures
        output_of(entries) == Ok::<Seq<char>, RunError<Seq<char>>>(entries[i].1->Some_0),
{
    lemma_only_built_in(entries, i, entries.len() as int);
}

proof fn lemma_only_built_in(
    entries: Seq<(Option<bool>, Option<Seq<char>>)>,
    i: int,
    n: int,
)
    requires
        0 <= i < entries.len(),
        0 <= n <= entries.len(),
        forall|k: int|
            0 <= k < entries.len() ==> (({
                let (disabled, name) = #[trigger] entries[k];
                &&& disabled != Some(true)
                &&& name is Some
                &&& text::starts_with(name->Some_0, "eDP-"@) || text::starts_with(
                    name->Some_0,
                    "LVDS-"@,
                ) || text::starts_with(name->Some_0, "DSI-"@)
            }) <==> k == i),
    ensures
        built_in(entries, n) == if i < n {
            seq![i]
        } else {
            Seq::empty()
        },
    decreases n,
{
    if n > 0 {
        lemma_only_built_in(entries, i, n - 1);
        assert(is_built_in(entries[n - 1]) <==> n - 1 == i);
        if i == n - 1 {
            assert(built_in(entries, n) =~= seq![i]);
        }
    }
}

/// Two built-in monitors in use, or none, are refused.
pub proof fn law_other_monitors_are_refused(
    entries: Seq<(Option<bool>, Option<Seq<char>>)>,
    i: int,
    j: int,
)
    ensures
        0 <= i < j < entries.len() && is_built_in(entries[i]) && is_built_in(entries[j])
            ==> output_of(entries) == Err::<Seq<char>, RunError<Seq<char>>>(RunError::NotOneMonitor),
        (forall|k: int| 0 <= k < entries.len() ==> !is_built_in(#[trigger] entries[k]))
            ==> output_of(entries) == Err::<Seq<char>, RunError<Seq<char>>>(RunError::NotOneMonitor),
{
    let n = entries.len() as int;
    lemma_built_in(entries, n);
    if 0 <= i < j < n && is_built_in(entries[i]) && is_built_in(entries[j]) {
        lemma_built_in_grows(entries, i + 1, j);
        lemma_built_in_grows(entries, j + 1, n);
    }
    if forall|k: int| 0 <= k < n ==> !is_built_in(#[trigger] entries[k]) {
        if built_in(entries, n).len() > 0 {
            assert(is_built_in(entries[built_in(entries, n)[0]]));
        }
    }
}

proof fn lemma_built_in_grows(entries: Seq<(Option<bool>, Option<Seq<char>>)>, m: int, n: int)
    requires
        0 <= m <= n,
    ensures
        built_in(entries, m).len() <= built_in(entries, n).len(),
    decreases n - m,
{
    if m < n {
        lemma_built_in_grows(entries, m, n - 1);
    }
}

/// What the display asks for is done: it plays, pauses, gets a key frame, and the media are
/// looked after.
pub proof fn law_wishes_are_fulfilled(m: Mirror)
    ensures
        m.deeds(Event::Play)[0] == Deed::Play,
        m.deeds(Event::Play).contains(Deed::Route) <==> m.audio && !m.routed,
        m.deeds(Event::Pause) == seq![Deed::Pause],
        m.deeds(Event::Idr) == seq![Deed::Keyframe],
        m.deeds(Event::Tick) == seq![Deed::Poll],
{
    let deeds = m.deeds(Event::Play);
    if m.audio && !m.routed {
        assert(deeds[1] == Deed::Route);
    } else if deeds.contains(Deed::Route) {
        let k = choose|k: int| 0 <= k < deeds.len() && deeds[k] == Deed::Route;
        assert(deeds[k] == Deed::Route);
    }
}

} // verus!
