//! The search for displays: which questions go to NetworkManager, one after the other.
use crate::network;
use crate::network::{Discovery, NetworkError, Peer, PeerModel};
use vstd::prelude::*;

verus! {

/// What is to be done next.
#[derive(Debug, PartialEq, Eq)]
pub enum Task {
    ListDevices,
    ReadKind { device: String },
    /// Let a device look for others.
    StartFind { device: String, seconds: i32 },
    ListPeers { device: String },
    ReadPeer { device: String, peer: String },
    /// Wait a moment.
    Pause,
    /// The displays that were found.
    Found(Vec<Peer>),
}

/// What is to be done next, in a model.
pub ghost enum TaskModel {
    ListDevices,
    ReadKind { device: Seq<char> },
    StartFind { device: Seq<char>, seconds: int },
    ListPeers { device: Seq<char> },
    ReadPeer { device: Seq<char>, peer: Seq<char> },
    Pause,
    Found(Seq<PeerModel>),
}

impl View for Task {
    type V = TaskModel;

    open spec fn view(&self) -> TaskModel {
        match self {
            Task::ListDevices => TaskModel::ListDevices,
            Task::ReadKind { device } => TaskModel::ReadKind { device: device@ },
            Task::StartFind { device, seconds } => TaskModel::StartFind {
                device: device@,
                seconds: *seconds as int,
            },
            Task::ListPeers { device } => TaskModel::ListPeers { device: device@ },
            Task::ReadPeer { device, peer } => TaskModel::ReadPeer { device: device@, peer: peer@ },
            Task::Pause => TaskModel::Pause,
            Task::Found(peers) => TaskModel::Found(network::peer_views(peers@)),
        }
    }
}

/// What is known of a device that was found.
#[derive(Debug)]
pub struct Facts {
    /// The elements of Wi-Fi Display.
    pub elements: Vec<u8>,
    pub name: String,
    pub mac: String,
}

/// What came of a task.
#[derive(Debug)]
pub enum Reply {
    Paths(Vec<String>),
    Kind(u32),
    /// Nothing where the device is gone.
    Facts(Option<Facts>),
    Done,
}

/// Which task is out.
#[derive(Clone, Copy, Debug, PartialEq, Eq, Structural)]
pub enum Phase {
    Devices,
    Kind,
    Finding,
    Peers,
    Peer,
    Pausing,
    Over,
}

/// How far the search is.
pub struct Search {
    seconds: i32,
    phase: Phase,
    devices: Vec<String>,
    at: usize,
    finders: Vec<String>,
    finder_at: usize,
    peers: Vec<String>,
    peer_at: usize,
    found: Discovery,
    deadline: u64,
}

/// How far the search is, in a model.
pub ghost struct SearchModel {
    pub seconds: int,
    pub phase: Phase,
    /// All devices, and the one that is looked at.
    pub devices: Seq<Seq<char>>,
    pub at: int,
    /// The devices that look for others, and the one that is asked.
    pub finders: Seq<Seq<char>>,
    pub finder_at: int,
    /// What that one has found, and what is looked at.
    pub peers: Seq<Seq<char>>,
    pub peer_at: int,
    /// The displays, each once and in their order.
    pub found: Seq<PeerModel>,
    /// When the search ends, in milliseconds.
    pub deadline: int,
}

impl View for Search {
    type V = SearchModel;

    closed spec fn view(&self) -> SearchModel {
        SearchModel {
            seconds: self.seconds as int,
            phase: self.phase,
            devices: network::text_views(self.devices@),
            at: self.at as int,
            finders: network::text_views(self.finders@),
            finder_at: self.finder_at as int,
            peers: network::text_views(self.peers@),
            peer_at: self.peer_at as int,
            found: self.found@,
            deadline: self.deadline as int,
        }
    }
}

// ---------------------------------------------------------------------------
// Model
// ---------------------------------------------------------------------------

/// What a reply leads to.
pub ghost struct Step {
    pub state: SearchModel,
    pub result: Result<TaskModel, NetworkError<Seq<char>>>,
}

/// A step that goes on.
pub open spec fn goes(s: SearchModel, phase: Phase, task: TaskModel) -> Step {
    Step { state: SearchModel { phase, ..s }, result: Ok(task) }
}

/// A step that ends the search.
pub open spec fn fails(s: SearchModel, error: NetworkError<Seq<char>>) -> Step {
    Step { state: s, result: Err(error) }
}

/// The next device to ask for displays, or the end of the round.
pub open spec fn next_finder(s: SearchModel, now: int) -> Step {
    if s.finder_at < s.finders.len() {
        goes(s, Phase::Peers, TaskModel::ListPeers { device: s.finders[s.finder_at] })
    } else if now >= s.deadline {
        goes(s, Phase::Over, TaskModel::Found(s.found))
    } else {
        goes(s, Phase::Pausing, TaskModel::Pause)
    }
}

/// Another round, unless the user has given up.
pub open spec fn next_round(s: SearchModel, stop: bool, now: int) -> Step {
    if stop {
        fails(s, NetworkError::Cancelled)
    } else {
        next_finder(SearchModel { finder_at: 0, ..s }, now)
    }
}

/// The next device, or the first round.
pub open spec fn next_device(s: SearchModel, stop: bool, now: int) -> Step {
    if s.at < s.devices.len() {
        if stop {
            fails(s, NetworkError::Cancelled)
        } else {
            goes(s, Phase::Kind, TaskModel::ReadKind { device: s.devices[s.at] })
        }
    } else if s.finders.len() == 0 {
        fails(s, NetworkError::NoDevice)
    } else {
        next_round(SearchModel { deadline: now + s.seconds * 1000, ..s }, stop, now)
    }
}

/// The next one that was found, or the next device.
pub open spec fn next_peer(s: SearchModel, stop: bool, now: int) -> Step {
    if s.peer_at < s.peers.len() {
        if stop {
            fails(s, NetworkError::Cancelled)
        } else {
            goes(
                s,
                Phase::Peer,
                TaskModel::ReadPeer { device: s.finders[s.finder_at], peer: s.peers[s.peer_at] },
            )
        }
    } else {
        next_finder(SearchModel { finder_at: s.finder_at + 1, ..s }, now)
    }
}

/// The displays with what is known of one more.
pub open spec fn with_facts(s: SearchModel, facts: Option<Facts>) -> Seq<PeerModel> {
    match facts {
        Some(f) => if network::display_from(f.elements@, 0) {
            network::added(
                s.found,
                PeerModel {
                    name: f.name@,
                    mac: f.mac@,
                    device: s.finders[s.finder_at],
                    peer: s.peers[s.peer_at],
                },
            )
        } else {
            s.found
        },
        None => s.found,
    }
}

/// What a reply leads to. Times are in milliseconds.
pub open spec fn advanced(s: SearchModel, reply: Reply, stop: bool, now: int) -> Step {
    match reply {
        Reply::Paths(paths) => match s.phase {
            Phase::Devices => next_device(
                SearchModel { devices: network::text_views(paths@), at: 0, ..s },
                stop,
                now,
            ),
            Phase::Peers => next_peer(
                SearchModel { peers: network::text_views(paths@), peer_at: 0, ..s },
                stop,
                now,
            ),
            _ => fails(s, NetworkError::Unexpected),
        },
        Reply::Kind(kind) => match s.phase {
            Phase::Kind => if kind == 30 {
                goes(
                    s,
                    Phase::Finding,
                    TaskModel::StartFind { device: s.devices[s.at], seconds: s.seconds },
                )
            } else {
                next_device(SearchModel { at: s.at + 1, ..s }, stop, now)
            },
            _ => fails(s, NetworkError::Unexpected),
        },
        Reply::Facts(facts) => match s.phase {
            Phase::Peer => next_peer(
                SearchModel { found: with_facts(s, facts), peer_at: s.peer_at + 1, ..s },
                stop,
                now,
            ),
            _ => fails(s, NetworkError::Unexpected),
        },
        Reply::Done => match s.phase {
            Phase::Finding => next_device(
                SearchModel { finders: s.finders.push(s.devices[s.at]), at: s.at + 1, ..s },
                stop,
                now,
            ),
            Phase::Pausing => next_round(s, stop, now),
            _ => fails(s, NetworkError::Unexpected),
        },
    }
}

/// What holds of every search: what is looked at is one of those that were listed, and the
/// displays are a list.
pub open spec fn in_order(s: SearchModel) -> bool {
    &&& 1 <= s.seconds <= 600
    &&& 0 <= s.at <= s.devices.len()
    &&& 0 <= s.finder_at <= s.finders.len()
    &&& 0 <= s.peer_at <= s.peers.len()
    &&& s.phase == Phase::Kind || s.phase == Phase::Finding ==> s.at < s.devices.len()
    &&& s.phase == Phase::Peers || s.phase == Phase::Peer ==> s.finder_at < s.finders.len()
    &&& s.phase == Phase::Peer ==> s.peer_at < s.peers.len()
    &&& network::is_list(s.found)
}

// ---------------------------------------------------------------------------
// Executed
// ---------------------------------------------------------------------------

/// Whether a result is the one that is expected.
pub open spec fn fulfils(
    r: Result<Task, NetworkError<String>>,
    expected: Result<TaskModel, NetworkError<Seq<char>>>,
) -> bool {
    match expected {
        Ok(task) => r is Ok && r->Ok_0@ == task,
        Err(e) => r is Err && r->Err_0.view() == e,
    }
}

/// One text behind others.
proof fn lemma_text_push(v: Seq<String>, s: String)
    ensures
        network::text_views(v.push(s)) == network::text_views(v).push(s@),
{
    assert(network::text_views(v.push(s)) =~= network::text_views(v).push(s@));
}

impl Search {
    /// A search of about this many seconds, and its first task.
    pub fn new(timeout_secs: u64) -> (r: (Search, Task))
        ensures
            r.0@ == (SearchModel {
                seconds: if timeout_secs < 1 {
                    1
                } else if timeout_secs > 600 {
                    600
                } else {
                    timeout_secs as int
                },
                phase: Phase::Devices,
                devices: Seq::empty(),
                at: 0,
                finders: Seq::empty(),
                finder_at: 0,
                peers: Seq::empty(),
                peer_at: 0,
                found: Seq::empty(),
                deadline: 0,
            }),
            r.1@ == TaskModel::ListDevices,
            in_order(r.0@),
    {
        let s = Search {
            seconds: network::scan_seconds(timeout_secs),
            phase: Phase::Devices,
            devices: Vec::new(),
            at: 0,
            finders: Vec::new(),
            finder_at: 0,
            peers: Vec::new(),
            peer_at: 0,
            found: Discovery::new(),
            deadline: 0,
        };
        proof {
            assert(network::text_views(s.devices@) =~= Seq::<Seq<char>>::empty());
            assert(network::text_views(s.finders@) =~= Seq::<Seq<char>>::empty());
            assert(network::text_views(s.peers@) =~= Seq::<Seq<char>>::empty());
        }
        (s, Task::ListDevices)
    }

    fn go_next_finder(&mut self, now: u64) -> (r: Result<Task, NetworkError<String>>)
        requires
            network::is_list(old(self)@.found),
        ensures
            final(self)@ == next_finder(old(self)@, now as int).state,
            fulfils(r, next_finder(old(self)@, now as int).result),
    {
        if self.finder_at < self.finders.len() {
            let device = self.finders[self.finder_at].clone();
            self.phase = Phase::Peers;
            return Ok(Task::ListPeers { device });
        }
        if now >= self.deadline {
            let peers = self.found.listed();
            self.phase = Phase::Over;
            return Ok(Task::Found(peers));
        }
        self.phase = Phase::Pausing;
        Ok(Task::Pause)
    }

    fn go_next_round(&mut self, stop: bool, now: u64) -> (r: Result<Task, NetworkError<String>>)
        requires
            network::is_list(old(self)@.found),
        ensures
            final(self)@ == next_round(old(self)@, stop, now as int).state,
            fulfils(r, next_round(old(self)@, stop, now as int).result),
    {
        network::cancelled(stop)?;
        self.finder_at = 0;
        self.go_next_finder(now)
    }

    fn go_next_device(&mut self, stop: bool, now: u64) -> (r: Result<Task, NetworkError<String>>)
        requires
            1 <= old(self)@.seconds <= 600,
            network::is_list(old(self)@.found),
            now <= u64::MAX - 600_000,
        ensures
            final(self)@ == next_device(old(self)@, stop, now as int).state,
            fulfils(r, next_device(old(self)@, stop, now as int).result),
    {
        if self.at < self.devices.len() {
            network::cancelled(stop)?;
            let device = self.devices[self.at].clone();
            self.phase = Phase::Kind;
            return Ok(Task::ReadKind { device });
        }
        network::check_devices(self.finders.len())?;
        self.deadline = now + self.seconds as u64 * 1000;
        self.go_next_round(stop, now)
    }

    fn go_next_peer(&mut self, stop: bool, now: u64) -> (r: Result<Task, NetworkError<String>>)
        requires
            0 <= old(self)@.finder_at < old(self)@.finders.len(),
            network::is_list(old(self)@.found),
        ensures
            final(self)@ == next_peer(old(self)@, stop, now as int).state,
            fulfils(r, next_peer(old(self)@, stop, now as int).result),
    {
        if self.peer_at < self.peers.len() {
            network::cancelled(stop)?;
            let device = self.finders[self.finder_at].clone();
            let peer = self.peers[self.peer_at].clone();
            self.phase = Phase::Peer;
            return Ok(Task::ReadPeer { device, peer });
        }
        assert(self.finders.len() == self.finders@.len());
        self.finder_at = self.finder_at + 1;
        self.go_next_finder(now)
    }

    /// Adds what is known of one more, where it is a display.
    fn take_facts(&mut self, facts: Option<Facts>)
        requires
            in_order(old(self)@),
            old(self)@.phase == Phase::Peer,
        ensures
            final(self)@ == (SearchModel { found: with_facts(old(self)@, facts), ..old(self)@ }),
            network::is_list(final(self)@.found),
    {
        match facts {
            Some(f) => {
                if network::is_display(f.elements.as_slice()) {
                    let peer = Peer {
                        name: f.name,
                        mac: f.mac,
                        device: self.finders[self.finder_at].clone(),
                        peer: self.peers[self.peer_at].clone(),
                    };
                    self.found.add(peer);
                }
            },
            None => {},
        }
    }

    /// What came of the task that is out: the next one, or why the search ends. Times are in
    /// milliseconds.
    pub fn advance(&mut self, reply: Reply, stop: bool, now: u64) -> (r: Result<
        Task,
        NetworkError<String>,
    >)
        requires
            in_order(old(self)@),
            now <= u64::MAX - 600_000,
        ensures
            final(self)@ == advanced(old(self)@, reply, stop, now as int).state,
            fulfils(r, advanced(old(self)@, reply, stop, now as int).result),
            r is Ok ==> in_order(final(self)@),
    {
        match reply {
            Reply::Paths(paths) => match self.phase {
                Phase::Devices => {
                    self.devices = paths;
                    self.at = 0;
                    self.go_next_device(stop, now)
                },
                Phase::Peers => {
                    self.peers = paths;
                    self.peer_at = 0;
                    self.go_next_peer(stop, now)
                },
                _ => Err(NetworkError::Unexpected),
            },
            Reply::Kind(kind) => match self.phase {
                Phase::Kind => {
                    if network::is_p2p_device(kind) {
                        let device = self.devices[self.at].clone();
                        let seconds: i32 = self.seconds;
                        self.phase = Phase::Finding;
                        return Ok(Task::StartFind { device, seconds });
                    }
                    assert(self.devices.len() == self.devices@.len());
                    self.at = self.at + 1;
                    self.go_next_device(stop, now)
                },
                _ => Err(NetworkError::Unexpected),
            },
            Reply::Facts(facts) => match self.phase {
                Phase::Peer => {
                    self.take_facts(facts);
                    assert(self.peers.len() == self.peers@.len());
                    self.peer_at = self.peer_at + 1;
                    self.go_next_peer(stop, now)
                },
                _ => Err(NetworkError::Unexpected),
            },
            Reply::Done => match self.phase {
                Phase::Finding => {
                    let device = self.devices[self.at].clone();
                    proof {
                        lemma_text_push(self.finders@, device);
                    }
                    self.finders.push(device);
                    assert(self.devices.len() == self.devices@.len());
                    self.at = self.at + 1;
                    self.go_next_device(stop, now)
                },
                Phase::Pausing => self.go_next_round(stop, now),
                _ => Err(NetworkError::Unexpected),
            },
        }
    }
}

// ---------------------------------------------------------------------------
// Laws
// ---------------------------------------------------------------------------

/// A search ends with all that it has found, each display once and in the order of the list,
/// and not before its time.
pub proof fn law_searches_end_in_time(s: SearchModel, reply: Reply, stop: bool, now: int)
    requires
        advanced(s, reply, stop, now).result is Ok,
        advanced(s, reply, stop, now).result->Ok_0 is Found,
    ensures
        advanced(s, reply, stop, now).result->Ok_0->Found_0 == advanced(
            s,
            reply,
            stop,
            now,
        ).state.found,
        now >= advanced(s, reply, stop, now).state.deadline,
{
}

/// Only displays are listed.
pub proof fn law_only_displays_are_listed(
    s: SearchModel,
    reply: Reply,
    stop: bool,
    now: int,
    peer: PeerModel,
)
    requires
        in_order(s),
        advanced(s, reply, stop, now).state.found.contains(peer),
        !s.found.contains(peer),
    ensures
        reply is Facts,
        reply->Facts_0 is Some,
        network::display_from(reply->Facts_0->Some_0.elements@, 0),
        peer.name == reply->Facts_0->Some_0.name@,
        peer.mac == reply->Facts_0->Some_0.mac@,
{
    match reply {
        Reply::Facts(Some(f)) => {
            if network::display_from(f.elements@, 0) {
                let model = PeerModel {
                    name: f.name@,
                    mac: f.mac@,
                    device: s.finders[s.finder_at],
                    peer: s.peers[s.peer_at],
                };
                network::law_displays_can_be_added(s.found, model);
            }
        },
        _ => {},
    }
}

/// A display that was found is listed, by its name and its address and where it was found, in
/// place of an earlier one with its address, and the others stay.
pub proof fn law_displays_that_are_found_are_listed(
    s: SearchModel,
    facts: Facts,
    stop: bool,
    now: int,
    other: PeerModel,
)
    requires
        in_order(s),
        s.phase == Phase::Peer,
        network::display_from(facts.elements@, 0),
    ensures
        ({
            let found = advanced(s, Reply::Facts(Some(facts)), stop, now).state.found;
            &&& network::is_list(found)
            &&& found.contains(
                PeerModel {
                    name: facts.name@,
                    mac: facts.mac@,
                    device: s.finders[s.finder_at],
                    peer: s.peers[s.peer_at],
                },
            )
            &&& s.found.contains(other) && other.mac != facts.mac@ ==> found.contains(other)
        }),
{
    let model = PeerModel {
        name: facts.name@,
        mac: facts.mac@,
        device: s.finders[s.finder_at],
        peer: s.peers[s.peer_at],
    };
    network::law_displays_can_be_added(s.found, model);
}

/// Every device is looked at, in turn, and those of Wi-Fi Direct look for displays, for as long
/// as the search lasts. Without such a device there is no search. Behind the last one the first
/// round starts, and the time counts from there.
pub proof fn law_every_wifi_direct_device_looks(
    s: SearchModel,
    kind: u32,
    now: int,
)
    requires
        in_order(s),
        s.phase == Phase::Kind,
    ensures
        ({
            let step = advanced(s, Reply::Kind(kind), false, now);
            let looking = advanced(step.state, Reply::Done, false, now);
            let after = if kind == 30 {
                looking
            } else {
                step
            };
            let finders = if kind == 30 {
                s.finders.push(s.devices[s.at])
            } else {
                s.finders
            };
            &&& kind == 30 ==> step.result == Ok::<TaskModel, NetworkError<Seq<char>>>(
                TaskModel::StartFind { device: s.devices[s.at], seconds: s.seconds },
            )
            &&& after.state.finders == finders
            &&& s.at + 1 < s.devices.len() ==> after.result == Ok::<
                TaskModel,
                NetworkError<Seq<char>>,
            >(TaskModel::ReadKind { device: s.devices[s.at + 1] })
            &&& s.at + 1 == s.devices.len() && finders.len() == 0 ==> after.result == Err::<
                TaskModel,
                NetworkError<Seq<char>>,
            >(NetworkError::NoDevice)
            &&& s.at + 1 == s.devices.len() && finders.len() > 0 ==> after.result == Ok::<
                TaskModel,
                NetworkError<Seq<char>>,
            >(TaskModel::ListPeers { device: finders[0] }) && after.state.deadline == now + s.seconds
                * 1000
        }),
{
}

/// Everything that a device has found is read, in turn, then what the next device has found.
/// Behind the last device the search is over where its time is, and otherwise there is a pause
/// and another round from the first device on.
pub proof fn law_everything_that_is_found_is_read(
    s: SearchModel,
    paths: Vec<String>,
    facts: Option<Facts>,
    now: int,
)
    requires
        in_order(s),
        s.phase == Phase::Peers || s.phase == Phase::Peer,
        s.deadline > 0,
    ensures
        ({
            let listed = advanced(s, Reply::Paths(paths), false, now);
            let read = advanced(s, Reply::Facts(facts), false, now);
            &&& s.phase == Phase::Peers && paths@.len() > 0 ==> listed.result == Ok::<
                TaskModel,
                NetworkError<Seq<char>>,
            >(TaskModel::ReadPeer { device: s.finders[s.finder_at], peer: paths@[0]@ })
            &&& s.phase == Phase::Peer && s.peer_at + 1 < s.peers.len() ==> read.result == Ok::<
                TaskModel,
                NetworkError<Seq<char>>,
            >(
                TaskModel::ReadPeer {
                    device: s.finders[s.finder_at],
                    peer: s.peers[s.peer_at + 1],
                },
            )
            &&& s.phase == Phase::Peer && s.peer_at + 1 == s.peers.len() ==> {
                &&& s.finder_at + 1 < s.finders.len() ==> read.result == Ok::<
                    TaskModel,
                    NetworkError<Seq<char>>,
                >(TaskModel::ListPeers { device: s.finders[s.finder_at + 1] })
                &&& s.finder_at + 1 == s.finders.len() && now >= s.deadline ==> read.result == Ok::<
                    TaskModel,
                    NetworkError<Seq<char>>,
                >(TaskModel::Found(read.state.found))
                &&& s.finder_at + 1 == s.finders.len() && now < s.deadline ==> read.result == Ok::<
                    TaskModel,
                    NetworkError<Seq<char>>,
                >(TaskModel::Pause) && advanced(read.state, Reply::Done, false, now).result == Ok::<
                    TaskModel,
                    NetworkError<Seq<char>>,
                >(TaskModel::ListPeers { device: s.finders[0] })
            }
        }),
{
}

/// A search can be given up at every device, at everything that was found and at every pause.
pub proof fn law_searches_can_be_given_up(s: SearchModel, now: int)
    requires
        in_order(s),
        s.phase == Phase::Pausing,
    ensures
        advanced(s, Reply::Done, true, now).result == Err::<TaskModel, NetworkError<Seq<char>>>(
            NetworkError::Cancelled,
        ),
{
}

} // verus!
