//! The way of the pairing service to a connection, one question to the supplicant after
//! the other.
use crate::credentials;
use crate::credentials::Property;
use crate::fields::Fields;
use crate::helper;
use crate::helper::{GroupInfo, HelperError, Operation, Request};
use crate::network;
use crate::text;
use vstd::prelude::*;

verus! {

/// What the client is told.
#[derive(Debug, PartialEq, Eq)]
pub struct Notice<T> {
    pub event: &'static str,
    pub message: Option<&'static str>,
    pub interface: Option<T>,
    pub reused: Option<bool>,
    pub count: Option<usize>,
}

/// What the client is told, in a model.
pub ghost struct NoticeModel {
    pub event: Seq<char>,
    pub message: Option<Seq<char>>,
    pub interface: Option<Seq<char>>,
    pub reused: Option<bool>,
    pub count: Option<int>,
}

impl Notice<String> {
    /// The notice in a model.
    pub open spec fn view(self) -> NoticeModel {
        NoticeModel {
            event: self.event@,
            message: match self.message {
                Some(m) => Some(m@),
                None => None,
            },
            interface: helper::text_view(self.interface),
            reused: self.reused,
            count: match self.count {
                Some(n) => Some(n as int),
                None => None,
            },
        }
    }
}

/// What is to be done next.
pub enum Task {
    ListInterfaces,
    ReadName { interface: String },
    ListPeers { interface: String },
    ReadAddress { peer: String },
    ListGroups { interface: String },
    ReadGroup { group: String },
    ListActive,
    ReadActive { interface: String },
    Load,
    Restore { interface: String, values: Vec<(&'static str, Property)> },
    Tell(Notice<String>),
    Subscribe { interface: String },
    ReadAdvertisement,
    SetAdvertisement(Vec<u8>),
    Invite { interface: String, peer: String, group: String },
    /// Pair for good, by a method of WPS and with a will to own the group.
    Pair { interface: String, peer: String, persistent: bool, method: &'static str, intent: i32 },
    AwaitGroup,
    ReadInterfaceName { interface: String },
    ReadOwner { group: String },
    ReadMembership { peer: String },
    ReadNetwork { group: String },
    Save { props: Fields },
    Configure { name: String, address: Vec<u8>, mask: Vec<u8> },
    /// The connection is up, until the client leaves.
    Hold,
    /// Nothing more.
    Finished,
}

/// What is to be done next, in a model.
pub ghost enum TaskModel {
    ListInterfaces,
    ReadName { interface: Seq<char> },
    ListPeers { interface: Seq<char> },
    ReadAddress { peer: Seq<char> },
    ListGroups { interface: Seq<char> },
    ReadGroup { group: Seq<char> },
    ListActive,
    ReadActive { interface: Seq<char> },
    Load,
    Restore { interface: Seq<char>, values: Seq<(Seq<char>, credentials::PropertyModel)> },
    Tell(NoticeModel),
    Subscribe { interface: Seq<char> },
    ReadAdvertisement,
    SetAdvertisement(Seq<u8>),
    Invite { interface: Seq<char>, peer: Seq<char>, group: Seq<char> },
    Pair {
        interface: Seq<char>,
        peer: Seq<char>,
        persistent: bool,
        method: Seq<char>,
        intent: i32,
    },
    AwaitGroup,
    ReadInterfaceName { interface: Seq<char> },
    ReadOwner { group: Seq<char> },
    ReadMembership { peer: Seq<char> },
    ReadNetwork { group: Seq<char> },
    Save { props: Map<Seq<char>, Seq<char>> },
    Configure { name: Seq<char>, address: Seq<u8>, mask: Seq<u8> },
    Hold,
    Finished,
}

impl View for Task {
    type V = TaskModel;

    open spec fn view(&self) -> TaskModel {
        match self {
            Task::ListInterfaces => TaskModel::ListInterfaces,
            Task::ReadName { interface } => TaskModel::ReadName { interface: interface@ },
            Task::ListPeers { interface } => TaskModel::ListPeers { interface: interface@ },
            Task::ReadAddress { peer } => TaskModel::ReadAddress { peer: peer@ },
            Task::ListGroups { interface } => TaskModel::ListGroups { interface: interface@ },
            Task::ReadGroup { group } => TaskModel::ReadGroup { group: group@ },
            Task::ListActive => TaskModel::ListActive,
            Task::ReadActive { interface } => TaskModel::ReadActive { interface: interface@ },
            Task::Load => TaskModel::Load,
            Task::Restore { interface, values } => TaskModel::Restore {
                interface: interface@,
                values: credentials::property_views(values@),
            },
            Task::Tell(notice) => TaskModel::Tell(notice.view()),
            Task::Subscribe { interface } => TaskModel::Subscribe { interface: interface@ },
            Task::ReadAdvertisement => TaskModel::ReadAdvertisement,
            Task::SetAdvertisement(bytes) => TaskModel::SetAdvertisement(bytes@),
            Task::Invite { interface, peer, group } => TaskModel::Invite {
                interface: interface@,
                peer: peer@,
                group: group@,
            },
            Task::Pair { interface, peer, persistent, method, intent } => TaskModel::Pair {
                interface: interface@,
                peer: peer@,
                persistent: *persistent,
                method: method@,
                intent: *intent,
            },
            Task::AwaitGroup => TaskModel::AwaitGroup,
            Task::ReadInterfaceName { interface } => TaskModel::ReadInterfaceName {
                interface: interface@,
            },
            Task::ReadOwner { group } => TaskModel::ReadOwner { group: group@ },
            Task::ReadMembership { peer } => TaskModel::ReadMembership { peer: peer@ },
            Task::ReadNetwork { group } => TaskModel::ReadNetwork { group: group@ },
            Task::Save { props } => TaskModel::Save { props: props@ },
            Task::Configure { name, address, mask } => TaskModel::Configure {
                name: name@,
                address: address@,
                mask: mask@,
            },
            Task::Hold => TaskModel::Hold,
            Task::Finished => TaskModel::Finished,
        }
    }
}

/// What came of a task.
pub enum Reply {
    Paths(Vec<String>),
    Text(Option<String>),
    Bytes(Vec<u8>),
    Properties(Fields),
    Saved(Option<Fields>),
    Group(GroupInfo),
    Done,
}

/// What came of a task, in a model.
pub ghost enum ReplyModel {
    Paths(Seq<Seq<char>>),
    Text(Option<Seq<char>>),
    Bytes(Seq<u8>),
    Properties(Map<Seq<char>, Seq<char>>),
    Saved(Option<Map<Seq<char>, Seq<char>>>),
    Group(GroupInfo),
    Done,
}

/// Texts of a list.
pub open spec fn list_view(v: Seq<String>) -> Seq<Seq<char>> {
    Seq::new(v.len(), |i: int| v[i]@)
}

impl View for Reply {
    type V = ReplyModel;

    open spec fn view(&self) -> ReplyModel {
        match self {
            Reply::Paths(v) => ReplyModel::Paths(list_view(v@)),
            Reply::Text(s) => ReplyModel::Text(helper::text_view(*s)),
            Reply::Bytes(b) => ReplyModel::Bytes(b@),
            Reply::Properties(p) => ReplyModel::Properties(p@),
            Reply::Saved(s) => ReplyModel::Saved(helper::saved_view(*s)),
            Reply::Group(g) => ReplyModel::Group(*g),
            Reply::Done => ReplyModel::Done,
        }
    }
}

/// Which task is out.
#[derive(Clone, Copy, Debug, PartialEq, Eq, Structural)]
pub enum Phase {
    Interfaces,
    Name,
    Peers,
    Address,
    Groups,
    Group,
    Inspection,
    Inspected,
    Active,
    ActiveGroup,
    Loading,
    Restoring,
    Restored,
    Subscribing,
    Advertised,
    Advertising,
    Inviting,
    Invited,
    Announcing,
    Pairing,
    Awaiting,
    InterfaceName,
    Owner,
    Membership,
    Network,
    RetainedGroups,
    RetainedGroup,
    Saving,
    Configuring,
    Telling,
    Holding,
    Over,
}

/// What has to be undone when the service ends.
pub struct Cleanup {
    pub parent: Option<String>,
    pub group: Option<String>,
    pub advertisement: Option<Vec<u8>>,
    pub initiated: bool,
    pub peer: Option<String>,
    pub previous_interfaces: Vec<String>,
}

/// What has to be undone, in a model.
pub ghost struct CleanupModel {
    pub parent: Option<Seq<char>>,
    pub group: Option<Seq<char>>,
    pub advertisement: Option<Seq<u8>>,
    pub initiated: bool,
    pub peer: Option<Seq<char>>,
    pub previous_interfaces: Seq<Seq<char>>,
}

impl View for Cleanup {
    type V = CleanupModel;

    open spec fn view(&self) -> CleanupModel {
        CleanupModel {
            parent: helper::text_view(self.parent),
            group: helper::text_view(self.group),
            advertisement: helper::bytes_view(self.advertisement),
            initiated: self.initiated,
            peer: helper::text_view(self.peer),
            previous_interfaces: list_view(self.previous_interfaces@),
        }
    }
}

/// How far the service is.
pub struct Connecting {
    request: Request,
    phase: Phase,
    todo: Vec<String>,
    at: usize,
    peers: Vec<String>,
    peer_at: usize,
    parent: Option<String>,
    peer: String,
    groups: Vec<(String, Fields)>,
    saved: Option<Fields>,
    reused: bool,
    info: Option<GroupInfo>,
    group: String,
    name: String,
    owner_length: usize,
    ssid: Vec<u8>,
    retained: Vec<(String, Fields)>,
    cleanup: Cleanup,
}

/// How far the service is, in a model.
pub ghost struct ConnectingModel {
    /// The address of the display.
    pub target: Seq<char>,
    pub allow_pairing: bool,
    /// The time limit, in seconds.
    pub timeout_secs: u64,
    pub operation: Operation,
    pub phase: Phase,
    /// The paths that are visited, and the one that is next.
    pub todo: Seq<Seq<char>>,
    pub at: int,
    /// The peers of the interface that is visited, and the one that is next.
    pub peers: Seq<Seq<char>>,
    pub peer_at: int,
    /// The interface on which the display was found, and its path there.
    pub parent: Option<Seq<char>>,
    pub peer: Seq<char>,
    /// The groups with the display, before and after the connection.
    pub groups: Seq<(Seq<char>, Map<Seq<char>, Seq<char>>)>,
    pub retained: Seq<(Seq<char>, Map<Seq<char>, Seq<char>>)>,
    pub saved: Option<Map<Seq<char>, Seq<char>>>,
    pub reused: bool,
    pub info: Option<GroupInfo>,
    pub group: Seq<char>,
    pub name: Seq<char>,
    pub owner_length: int,
    pub ssid: Seq<u8>,
    pub cleanup: CleanupModel,
}

impl View for Connecting {
    type V = ConnectingModel;

    closed spec fn view(&self) -> ConnectingModel {
        ConnectingModel {
            target: self.request.peer@,
            allow_pairing: self.request.allow_pairing,
            timeout_secs: self.request.timeout_secs,
            operation: self.request.operation,
            phase: self.phase,
            todo: list_view(self.todo@),
            at: self.at as int,
            peers: list_view(self.peers@),
            peer_at: self.peer_at as int,
            parent: helper::text_view(self.parent),
            peer: self.peer@,
            groups: helper::group_views(self.groups@),
            retained: helper::group_views(self.retained@),
            saved: helper::saved_view(self.saved),
            reused: self.reused,
            info: self.info,
            group: self.group@,
            name: self.name@,
            owner_length: self.owner_length as int,
            ssid: self.ssid@,
            cleanup: self.cleanup@,
        }
    }
}

// ---------------------------------------------------------------------------
// Model of the way
// ---------------------------------------------------------------------------

/// What a reply leads to.
pub ghost struct Advance {
    pub state: ConnectingModel,
    pub result: Result<TaskModel, HelperError>,
}

/// A step that goes on.
pub open spec fn goes(s: ConnectingModel, phase: Phase, task: TaskModel) -> Advance {
    Advance { state: ConnectingModel { phase, ..s }, result: Ok(task) }
}

/// A step that ends the way.
pub open spec fn fails(s: ConnectingModel, error: HelperError) -> Advance {
    Advance { state: s, result: Err(error) }
}

/// A notice of some progress.
pub open spec fn status_notice(message: Seq<char>, reused: bool) -> NoticeModel {
    NoticeModel {
        event: "status"@,
        message: Some(message),
        interface: None,
        reused: Some(reused),
        count: None,
    }
}

/// The next interface on which to look for the display, or what follows the search.
pub open spec fn next_interface(s: ConnectingModel) -> Advance {
    if s.at < s.todo.len() {
        goes(s, Phase::Name, TaskModel::ReadName { interface: s.todo[s.at] })
    } else {
        match s.parent {
            None => fails(s, HelperError::NotDiscovered),
            Some(parent) => goes(s, Phase::Groups, TaskModel::ListGroups { interface: parent }),
        }
    }
}

/// The next peer of the interface, or the next interface.
pub open spec fn next_peer(s: ConnectingModel) -> Advance {
    if s.peer_at < s.peers.len() {
        goes(s, Phase::Address, TaskModel::ReadAddress { peer: s.peers[s.peer_at] })
    } else {
        next_interface(ConnectingModel { at: s.at + 1, ..s })
    }
}

/// The result of an inspection: how many pairings there are.
pub open spec fn tell_count(s: ConnectingModel, count: int) -> Advance {
    goes(
        s,
        Phase::Inspected,
        TaskModel::Tell(
            NoticeModel {
                event: "inspection"@,
                message: None,
                interface: None,
                reused: None,
                count: Some(count),
            },
        ),
    )
}

/// The next group to look at, or what follows the groups.
pub open spec fn next_group(s: ConnectingModel) -> Advance {
    if s.at < s.todo.len() {
        goes(s, Phase::Group, TaskModel::ReadGroup { group: s.todo[s.at] })
    } else if s.operation == Operation::Connect {
        goes(s, Phase::Active, TaskModel::ListActive)
    } else if s.groups.len() > 0 {
        tell_count(s, s.groups.len() as int)
    } else {
        goes(s, Phase::Inspection, TaskModel::Load)
    }
}

/// The next interface on which another group may be, or the saved pairing.
pub open spec fn next_active(s: ConnectingModel) -> Advance {
    if s.at < s.todo.len() {
        goes(s, Phase::ActiveGroup, TaskModel::ReadActive { interface: s.todo[s.at] })
    } else {
        goes(s, Phase::Loading, TaskModel::Load)
    }
}

/// What follows when it is known which pairings there are.
pub open spec fn with_groups(s: ConnectingModel) -> Advance {
    if s.groups.len() == 0 && !s.allow_pairing {
        fails(s, HelperError::PairingForbidden)
    } else {
        goes(
            ConnectingModel { reused: s.groups.len() > 0, ..s },
            Phase::Subscribing,
            TaskModel::Subscribe { interface: s.parent->Some_0 },
        )
    }
}

/// The next group that was kept, or what follows them.
pub open spec fn next_retained(s: ConnectingModel) -> Advance {
    if s.at < s.todo.len() {
        goes(s, Phase::RetainedGroup, TaskModel::ReadGroup { group: s.todo[s.at] })
    } else {
        match helper::newest_of(s.retained, s.ssid, s.retained.len() as int) {
            None => fails(s, HelperError::NotRetained),
            Some(i) => {
                let props = s.retained[i].1;
                if props.contains_key("psk"@) {
                    goes(s, Phase::Saving, TaskModel::Save { props })
                } else if s.saved is Some && credentials::have_same_ssid(s.saved->Some_0, props) {
                    with_pairing_kept(s)
                } else {
                    fails(s, HelperError::NotExportable)
                }
            },
        }
    }
}

/// What follows when the pairing is kept: the addresses.
pub open spec fn with_pairing_kept(s: ConnectingModel) -> Advance {
    if s.info is None || !helper::addresses_confirmed(s.info->Some_0) {
        fails(s, HelperError::WrongAddress)
    } else if !helper::is_configurable(s.name) {
        fails(s, HelperError::InvalidInterfaceName)
    } else {
        goes(
            s,
            Phase::Configuring,
            TaskModel::Configure {
                name: s.name,
                address: seq![192u8, 168, 49, 10],
                mask: seq![255u8, 255, 255, 0],
            },
        )
    }
}

/// What a group that was started leads to.
pub open spec fn with_group(s: ConnectingModel, info: GroupInfo) -> Advance {
    match helper::text_view(info.interface) {
        None => fails(s, HelperError::NoInterface),
        Some(interface) => {
            let next = ConnectingModel {
                info: Some(info),
                cleanup: CleanupModel { group: Some(interface), ..s.cleanup },
                ..s
            };
            if helper::text_view(info.role) != Some("client"@) {
                fails(next, HelperError::NotOwner)
            } else {
                goes(next, Phase::InterfaceName, TaskModel::ReadInterfaceName { interface })
            }
        },
    }
}

/// What a list leads to.
pub open spec fn after_paths(s: ConnectingModel, paths: Seq<Seq<char>>) -> Advance {
    match s.phase {
        Phase::Interfaces => next_interface(ConnectingModel { todo: paths, at: 0, ..s }),
        Phase::Peers => next_peer(ConnectingModel { peers: paths, peer_at: 0, ..s }),
        Phase::Groups => next_group(ConnectingModel { todo: paths, at: 0, ..s }),
        Phase::Active => next_active(
            ConnectingModel {
                todo: paths,
                at: 0,
                cleanup: CleanupModel {
                    previous_interfaces: paths,
                    peer: Some(s.peer),
                    ..s.cleanup
                },
                ..s
            },
        ),
        Phase::Membership => if s.owner_length != 6 || !paths.contains(s.group) {
            fails(s, HelperError::OtherGroup)
        } else {
            goes(s, Phase::Network, TaskModel::ReadNetwork { group: s.group })
        },
        Phase::RetainedGroups => next_retained(ConnectingModel { todo: paths, at: 0, ..s }),
        _ => fails(s, HelperError::Unexpected),
    }
}

/// What a name or a path leads to.
pub open spec fn after_text(s: ConnectingModel, value: Option<Seq<char>>) -> Advance {
    match s.phase {
        Phase::Name => if value == Some("wlo1"@) {
            goes(s, Phase::Peers, TaskModel::ListPeers { interface: s.todo[s.at] })
        } else {
            next_interface(ConnectingModel { at: s.at + 1, ..s })
        },
        Phase::ActiveGroup => if value is Some && value->Some_0 != "/"@ {
            fails(s, HelperError::GroupExists)
        } else {
            next_active(ConnectingModel { at: s.at + 1, ..s })
        },
        Phase::Restoring => match value {
            None => fails(s, HelperError::Unexpected),
            Some(path) => goes(
                ConnectingModel { groups: s.groups.push((path, s.saved->Some_0)), ..s },
                Phase::Restored,
                TaskModel::Tell(status_notice("restoring saved pairing from disk"@, true)),
            ),
        },
        Phase::InterfaceName => match value {
            None => fails(s, HelperError::Unexpected),
            Some(name) => {
                let next = ConnectingModel { name, ..s };
                match helper::text_view(s.info->Some_0.group) {
                    None => fails(next, HelperError::NoGroup),
                    Some(group) => goes(
                        ConnectingModel { group, ..next },
                        Phase::Owner,
                        TaskModel::ReadOwner { group },
                    ),
                }
            },
        },
        _ => fails(s, HelperError::Unexpected),
    }
}

/// What bytes lead to.
pub open spec fn after_bytes(s: ConnectingModel, bytes: Seq<u8>) -> Advance {
    match s.phase {
        Phase::Address => if credentials::address_text(bytes) == s.target {
            next_interface(
                ConnectingModel {
                    parent: Some(s.todo[s.at]),
                    peer: s.peers[s.peer_at],
                    at: s.at + 1,
                    ..s
                },
            )
        } else {
            next_peer(ConnectingModel { peer_at: s.peer_at + 1, ..s })
        },
        Phase::Advertised => goes(
            ConnectingModel {
                cleanup: CleanupModel { advertisement: Some(bytes), ..s.cleanup },
                ..s
            },
            Phase::Advertising,
            TaskModel::SetAdvertisement(network::source_elements()),
        ),
        Phase::Owner => goes(
            ConnectingModel { owner_length: bytes.len() as int, ..s },
            Phase::Membership,
            TaskModel::ReadMembership { peer: s.peer },
        ),
        Phase::Network => goes(
            ConnectingModel { ssid: bytes, ..s },
            Phase::RetainedGroups,
            TaskModel::ListGroups { interface: s.parent->Some_0 },
        ),
        _ => fails(s, HelperError::Unexpected),
    }
}

/// What properties lead to.
pub open spec fn after_properties(s: ConnectingModel, props: Map<Seq<char>, Seq<char>>) -> Advance {
    match s.phase {
        Phase::Group => next_group(
            ConnectingModel {
                groups: if credentials::is_pairing_with(props, s.target) {
                    s.groups.push((s.todo[s.at], props))
                } else {
                    s.groups
                },
                at: s.at + 1,
                ..s
            },
        ),
        Phase::RetainedGroup => next_retained(
            ConnectingModel {
                retained: if credentials::is_pairing_with(props, s.target) {
                    s.retained.push((s.todo[s.at], props))
                } else {
                    s.retained
                },
                at: s.at + 1,
                ..s
            },
        ),
        _ => fails(s, HelperError::Unexpected),
    }
}

/// What the saved pairing leads to.
pub open spec fn after_saved(s: ConnectingModel, saved: Option<Map<Seq<char>, Seq<char>>>) -> Advance {
    match s.phase {
        Phase::Inspection => tell_count(
            s,
            if saved is Some {
                1
            } else {
                0
            },
        ),
        Phase::Loading => {
            let next = ConnectingModel { saved, ..s };
            if s.groups.len() == 0 && saved is Some {
                match credentials::restored(saved->Some_0) {
                    Err(e) => fails(next, HelperError::Credential(e)),
                    Ok(values) => goes(
                        next,
                        Phase::Restoring,
                        TaskModel::Restore { interface: s.parent->Some_0, values },
                    ),
                }
            } else {
                with_groups(next)
            }
        },
        _ => fails(s, HelperError::Unexpected),
    }
}

/// What a group leads to.
pub open spec fn after_group(s: ConnectingModel, info: GroupInfo) -> Advance {
    match s.phase {
        Phase::Awaiting => with_group(s, info),
        _ => fails(s, HelperError::Unexpected),
    }
}

/// What something done leads to.
pub open spec fn after_done(s: ConnectingModel) -> Advance {
    match s.phase {
        Phase::Inspected => goes(s, Phase::Over, TaskModel::Finished),
        Phase::Restored => with_groups(s),
        Phase::Subscribing => goes(
            ConnectingModel { cleanup: CleanupModel { parent: s.parent, ..s.cleanup }, ..s },
            Phase::Advertised,
            TaskModel::ReadAdvertisement,
        ),
        Phase::Advertising => {
            let next = ConnectingModel {
                cleanup: CleanupModel { initiated: true, ..s.cleanup },
                ..s
            };
            if s.groups.len() > 0 {
                goes(
                    next,
                    Phase::Inviting,
                    TaskModel::Tell(status_notice("reinviting saved persistent group"@, true)),
                )
            } else {
                goes(
                    next,
                    Phase::Announcing,
                    TaskModel::Tell(
                        status_notice(
                            "first persistent pairing; confirm Wi-Fi Direct on TV if requested"@,
                            false,
                        ),
                    ),
                )
            }
        },
        Phase::Inviting => goes(
            s,
            Phase::Invited,
            TaskModel::Invite {
                interface: s.parent->Some_0,
                peer: s.peer,
                group: s.groups[helper::best_group(s.groups, s.saved, s.groups.len() as int)].0,
            },
        ),
        Phase::Invited => goes(s, Phase::Awaiting, TaskModel::AwaitGroup),
        Phase::Announcing => goes(
            s,
            Phase::Pairing,
            TaskModel::Pair {
                interface: s.parent->Some_0,
                peer: s.peer,
                persistent: true,
                method: "pbc"@,
                intent: 7,
            },
        ),
        Phase::Pairing => goes(s, Phase::Awaiting, TaskModel::AwaitGroup),
        Phase::Saving => with_pairing_kept(s),
        Phase::Configuring => goes(
            s,
            Phase::Telling,
            TaskModel::Tell(
                NoticeModel {
                    event: "ready"@,
                    message: None,
                    interface: Some(s.name),
                    reused: Some(s.reused),
                    count: None,
                },
            ),
        ),
        Phase::Telling => goes(s, Phase::Holding, TaskModel::Hold),
        _ => fails(s, HelperError::Unexpected),
    }
}

/// What a reply leads to.
pub open spec fn advanced(s: ConnectingModel, reply: ReplyModel) -> Advance {
    match reply {
        ReplyModel::Paths(paths) => after_paths(s, paths),
        ReplyModel::Text(value) => after_text(s, value),
        ReplyModel::Bytes(bytes) => after_bytes(s, bytes),
        ReplyModel::Properties(props) => after_properties(s, props),
        ReplyModel::Saved(saved) => after_saved(s, saved),
        ReplyModel::Group(info) => after_group(s, info),
        ReplyModel::Done => after_done(s),
    }
}

/// The state of a new request.
pub open spec fn initial(
    target: Seq<char>,
    allow_pairing: bool,
    timeout_secs: u64,
    operation: Operation,
) -> ConnectingModel {
    ConnectingModel {
        target,
        allow_pairing,
        timeout_secs,
        operation,
        phase: Phase::Interfaces,
        todo: Seq::empty(),
        at: 0,
        peers: Seq::empty(),
        peer_at: 0,
        parent: None,
        peer: Seq::empty(),
        groups: Seq::empty(),
        retained: Seq::empty(),
        saved: None,
        reused: false,
        info: None,
        group: Seq::empty(),
        name: Seq::empty(),
        owner_length: 0,
        ssid: Seq::empty(),
        cleanup: CleanupModel {
            parent: None,
            group: None,
            advertisement: None,
            initiated: false,
            peer: None,
            previous_interfaces: Seq::empty(),
        },
    }
}

/// What holds on the whole way: a path that is looked at is one of those that were listed,
/// and from the groups on the display was found.
pub open spec fn on_the_way(s: ConnectingModel) -> bool {
    &&& 0 <= s.at <= s.todo.len()
    &&& 0 <= s.peer_at <= s.peers.len()
    &&& (s.phase == Phase::Name || s.phase == Phase::Peers || s.phase == Phase::Address || s.phase
        == Phase::Group || s.phase == Phase::ActiveGroup || s.phase == Phase::RetainedGroup)
        ==> s.at < s.todo.len()
    &&& s.phase == Phase::Address ==> s.peer_at < s.peers.len()
    &&& !(s.phase == Phase::Interfaces || s.phase == Phase::Name || s.phase == Phase::Peers
        || s.phase == Phase::Address) ==> s.parent is Some
    &&& s.phase == Phase::Restoring ==> s.saved is Some
    &&& s.phase == Phase::Inviting ==> s.groups.len() > 0
    &&& (s.phase == Phase::Announcing || s.phase == Phase::Pairing) ==> s.allow_pairing
        && s.groups.len() == 0
    &&& (s.phase == Phase::Subscribing || s.phase == Phase::Advertised || s.phase
        == Phase::Advertising) ==> s.groups.len() > 0 || s.allow_pairing
    &&& s.phase == Phase::InterfaceName ==> s.info is Some
}

/// Whether what is done in a phase changes more than the task that is out.
spec fn changes_more(phase: Phase) -> bool {
    match phase {
        Phase::Restored | Phase::Subscribing | Phase::Advertising | Phase::Inviting => true,
        Phase::Announcing | Phase::Saving | Phase::Configuring => true,
        _ => false,
    }
}

// ---------------------------------------------------------------------------
// The way, executed
// ---------------------------------------------------------------------------

/// Whether a result is the one that is expected.
pub open spec fn fulfils(
    r: Result<Task, HelperError>,
    expected: Result<TaskModel, HelperError>,
) -> bool {
    match expected {
        Ok(task) => r is Ok && r->Ok_0@ == task,
        Err(e) => r is Err && r->Err_0 == e,
    }
}

/// A copy of texts.
fn copy_list(v: &Vec<String>) -> (r: Vec<String>)
    ensures
        list_view(r@) == list_view(v@),
{
    let mut out: Vec<String> = Vec::new();
    let mut i: usize = 0;
    while i < v.len()
        invariant
            i <= v@.len(),
            out@.len() == i,
            forall|k: int| 0 <= k < i ==> (#[trigger] out@[k])@ == v@[k]@,
        decreases v@.len() - i,
    {
        out.push(v[i].clone());
        i = i + 1;
    }
    proof {
        assert(list_view(out@) =~= list_view(v@));
    }
    out
}

/// A copy of a text that may be there.
fn copy_text(s: &Option<String>) -> (r: Option<String>)
    ensures
        helper::text_view(r) == helper::text_view(*s),
{
    match s {
        Some(t) => Some(t.clone()),
        None => None,
    }
}

/// The text that has to be there.
fn expected_text(s: &Option<String>) -> (r: String)
    requires
        s is Some,
    ensures
        r@ == helper::text_view(*s)->Some_0,
{
    match s {
        Some(t) => t.clone(),
        None => String::new(),
    }
}

/// One group behind others.
proof fn lemma_groups_push(v: Seq<(String, Fields)>, g: (String, Fields))
    ensures
        helper::group_views(v.push(g)) == helper::group_views(v).push((g.0@, g.1@)),
{
    assert(helper::group_views(v.push(g)) =~= helper::group_views(v).push((g.0@, g.1@)));
}

/// Whether a text is one of a list.
fn has_text(v: &Vec<String>, s: &str) -> (r: bool)
    ensures
        r == list_view(v@).contains(s@),
{
    let mut i: usize = 0;
    while i < v.len()
        invariant
            i <= v@.len(),
            forall|k: int| 0 <= k < i ==> (#[trigger] v@[k])@ != s@,
        decreases v@.len() - i,
    {
        if text::same(v[i].as_str(), s) {
            proof {
                assert(list_view(v@)[i as int] == s@);
            }
            return true;
        }
        i = i + 1;
    }
    proof {
        if list_view(v@).contains(s@) {
            let k = choose|k: int| 0 <= k < list_view(v@).len() && list_view(v@)[k] == s@;
            assert(v@[k]@ == s@);
        }
    }
    false
}

/// A notice of some progress.
fn status(message: &'static str, reused: bool) -> (r: Task)
    ensures
        r@ == TaskModel::Tell(status_notice(message@, reused)),
{
    Task::Tell(
        Notice {
            event: "status",
            message: Some(message),
            interface: None,
            reused: Some(reused),
            count: None,
        },
    )
}

impl Connecting {
    /// The way to a display, and the first question.
    pub fn new(request: Request) -> (r: (Connecting, Task))
        ensures
            r.0@ == initial(
                request.peer@,
                request.allow_pairing,
                request.timeout_secs,
                request.operation,
            ),
            r.1@ == TaskModel::ListInterfaces,
            on_the_way(r.0@),
    {
        let c = Connecting {
            request,
            phase: Phase::Interfaces,
            todo: Vec::new(),
            at: 0,
            peers: Vec::new(),
            peer_at: 0,
            parent: None,
            peer: String::new(),
            groups: Vec::new(),
            saved: None,
            reused: false,
            info: None,
            group: String::new(),
            name: String::new(),
            owner_length: 0,
            ssid: Vec::new(),
            retained: Vec::new(),
            cleanup: Cleanup {
                parent: None,
                group: None,
                advertisement: None,
                initiated: false,
                peer: None,
                previous_interfaces: Vec::new(),
            },
        };
        proof {
            assert(list_view(c.todo@) =~= Seq::<Seq<char>>::empty());
            assert(list_view(c.peers@) =~= Seq::<Seq<char>>::empty());
            assert(list_view(c.cleanup.previous_interfaces@) =~= Seq::<Seq<char>>::empty());
            assert(helper::group_views(c.groups@) =~= Seq::<
                (Seq<char>, Map<Seq<char>, Seq<char>>),
            >::empty());
            assert(helper::group_views(c.retained@) =~= Seq::<
                (Seq<char>, Map<Seq<char>, Seq<char>>),
            >::empty());
            assert(c.peer@ =~= Seq::<char>::empty());
            assert(c.ssid@ =~= Seq::<u8>::empty());
        }
        (c, Task::ListInterfaces)
    }

    /// What has to be undone, as it stands.
    pub fn cleanup(&self) -> (r: &Cleanup)
        ensures
            r@ == self@.cleanup,
    {
        &self.cleanup
    }

    /// Whether the connection is up.
    pub fn is_ready(&self) -> (r: bool)
        ensures
            r == (self@.phase == Phase::Holding),
    {
        matches!(self.phase, Phase::Holding)
    }

    /// The path that is looked at.
    fn current(&self) -> (r: String)
        requires
            0 <= self@.at < self@.todo.len(),
        ensures
            r@ == self@.todo[self@.at],
    {
        self.todo[self.at].clone()
    }

    fn go_next_interface(&mut self) -> (r: Result<Task, HelperError>)
        ensures
            final(self)@ == next_interface(old(self)@).state,
            fulfils(r, next_interface(old(self)@).result),
    {
        if self.at < self.todo.len() {
            let interface = self.current();
            self.phase = Phase::Name;
            return Ok(Task::ReadName { interface });
        }
        match &self.parent {
            None => Err(HelperError::NotDiscovered),
            Some(parent) => {
                let interface = parent.clone();
                self.phase = Phase::Groups;
                Ok(Task::ListGroups { interface })
            },
        }
    }

    fn go_next_peer(&mut self) -> (r: Result<Task, HelperError>)
        requires
            0 <= old(self)@.at < old(self)@.todo.len(),
        ensures
            final(self)@ == next_peer(old(self)@).state,
            fulfils(r, next_peer(old(self)@).result),
    {
        if self.peer_at < self.peers.len() {
            let peer = self.peers[self.peer_at].clone();
            self.phase = Phase::Address;
            return Ok(Task::ReadAddress { peer });
        }
        assert(self.todo.len() == self.todo@.len());
        self.at = self.at + 1;
        self.go_next_interface()
    }

    fn go_tell_count(&mut self, count: usize) -> (r: Result<Task, HelperError>)
        ensures
            final(self)@ == tell_count(old(self)@, count as int).state,
            fulfils(r, tell_count(old(self)@, count as int).result),
    {
        self.phase = Phase::Inspected;
        Ok(
            Task::Tell(
                Notice {
                    event: "inspection",
                    message: None,
                    interface: None,
                    reused: None,
                    count: Some(count),
                },
            ),
        )
    }

    fn go_next_group(&mut self) -> (r: Result<Task, HelperError>)
        ensures
            final(self)@ == next_group(old(self)@).state,
            fulfils(r, next_group(old(self)@).result),
    {
        if self.at < self.todo.len() {
            let group = self.current();
            self.phase = Phase::Group;
            return Ok(Task::ReadGroup { group });
        }
        match self.request.operation {
            Operation::Connect => {
                self.phase = Phase::Active;
                Ok(Task::ListActive)
            },
            Operation::Inspect => {
                let count: usize = self.groups.len();
                if count > 0 {
                    return self.go_tell_count(count);
                }
                self.phase = Phase::Inspection;
                Ok(Task::Load)
            },
        }
    }

    fn go_next_active(&mut self) -> (r: Result<Task, HelperError>)
        ensures
            final(self)@ == next_active(old(self)@).state,
            fulfils(r, next_active(old(self)@).result),
    {
        if self.at < self.todo.len() {
            let interface = self.current();
            self.phase = Phase::ActiveGroup;
            return Ok(Task::ReadActive { interface });
        }
        self.phase = Phase::Loading;
        Ok(Task::Load)
    }

    fn go_with_groups(&mut self) -> (r: Result<Task, HelperError>)
        requires
            old(self)@.parent is Some,
        ensures
            final(self)@ == with_groups(old(self)@).state,
            fulfils(r, with_groups(old(self)@).result),
    {
        if self.groups.len() == 0 && !self.request.allow_pairing {
            return Err(HelperError::PairingForbidden);
        }
        self.reused = self.groups.len() > 0;
        let interface = expected_text(&self.parent);
        self.phase = Phase::Subscribing;
        Ok(Task::Subscribe { interface })
    }

    fn go_with_pairing_kept(&mut self) -> (r: Result<Task, HelperError>)
        ensures
            final(self)@ == with_pairing_kept(old(self)@).state,
            fulfils(r, with_pairing_kept(old(self)@).result),
    {
        let confirmed = match &self.info {
            None => false,
            Some(info) => helper::verified_ip(info),
        };
        if !confirmed {
            return Err(HelperError::WrongAddress);
        }
        helper::check_configurable(self.name.as_str())?;
        let name = self.name.clone();
        self.phase = Phase::Configuring;
        let address: Vec<u8> = vec![192, 168, 49, 10];
        let mask: Vec<u8> = vec![255, 255, 255, 0];
        proof {
            assert(address@ =~= seq![192u8, 168, 49, 10]);
            assert(mask@ =~= seq![255u8, 255, 255, 0]);
        }
        Ok(Task::Configure { name, address, mask })
    }

    fn go_next_retained(&mut self) -> (r: Result<Task, HelperError>)
        ensures
            final(self)@ == next_retained(old(self)@).state,
            fulfils(r, next_retained(old(self)@).result),
    {
        if self.at < self.todo.len() {
            let group = self.current();
            self.phase = Phase::RetainedGroup;
            return Ok(Task::ReadGroup { group });
        }
        let i: usize = match helper::choose_newest(self.retained.as_slice(), self.ssid.as_slice()) {
            None => {
                return Err(HelperError::NotRetained);
            },
            Some(i) => i,
        };
        proof {
            assert(helper::group_views(self.retained@)[i as int].1 == self.retained@[i as int].1@);
        }
        if self.retained[i].1.has("psk") {
            let props = self.retained[i].1.copied();
            self.phase = Phase::Saving;
            return Ok(Task::Save { props });
        }
        let known = match &self.saved {
            None => false,
            Some(saved) => credentials::same_ssid(saved, &self.retained[i].1),
        };
        if !known {
            return Err(HelperError::NotExportable);
        }
        self.go_with_pairing_kept()
    }

    fn go_with_group(&mut self, info: GroupInfo) -> (r: Result<Task, HelperError>)
        ensures
            final(self)@ == with_group(old(self)@, info).state,
            fulfils(r, with_group(old(self)@, info).result),
    {
        let interface = match &info.interface {
            None => {
                return Err(HelperError::NoInterface);
            },
            Some(interface) => interface.clone(),
        };
        let client = match &info.role {
            Some(role) => text::same(role.as_str(), "client"),
            None => false,
        };
        self.info = Some(info);
        self.cleanup.group = Some(interface.clone());
        if !client {
            return Err(HelperError::NotOwner);
        }
        self.phase = Phase::InterfaceName;
        Ok(Task::ReadInterfaceName { interface })
    }

    fn on_paths(&mut self, paths: Vec<String>) -> (r: Result<Task, HelperError>)
        requires
            on_the_way(old(self)@),
        ensures
            final(self)@ == advanced(old(self)@, ReplyModel::Paths(list_view(paths@))).state,
            fulfils(r, advanced(old(self)@, ReplyModel::Paths(list_view(paths@))).result),
    {
        match self.phase {
            Phase::Interfaces => {
                self.todo = paths;
                self.at = 0;
                self.go_next_interface()
            },
            Phase::Peers => {
                self.peers = paths;
                self.peer_at = 0;
                self.go_next_peer()
            },
            Phase::Groups => {
                self.todo = paths;
                self.at = 0;
                self.go_next_group()
            },
            Phase::Active => {
                self.cleanup.previous_interfaces = copy_list(&paths);
                self.cleanup.peer = Some(self.peer.clone());
                self.todo = paths;
                self.at = 0;
                self.go_next_active()
            },
            Phase::Membership => {
                if self.owner_length != 6 || !has_text(&paths, self.group.as_str()) {
                    return Err(HelperError::OtherGroup);
                }
                let group = self.group.clone();
                self.phase = Phase::Network;
                Ok(Task::ReadNetwork { group })
            },
            Phase::RetainedGroups => {
                self.todo = paths;
                self.at = 0;
                self.go_next_retained()
            },
            _ => Err(HelperError::Unexpected),
        }
    }

    fn on_text(&mut self, value: Option<String>) -> (r: Result<Task, HelperError>)
        requires
            on_the_way(old(self)@),
        ensures
            final(self)@ == advanced(old(self)@, ReplyModel::Text(helper::text_view(value))).state,
            fulfils(r, advanced(old(self)@, ReplyModel::Text(helper::text_view(value))).result),
    {
        match self.phase {
            Phase::Name => {
                let found = match &value {
                    Some(name) => text::same(name.as_str(), "wlo1"),
                    None => false,
                };
                if found {
                    let interface = self.current();
                    self.phase = Phase::Peers;
                    return Ok(Task::ListPeers { interface });
                }
                assert(self.todo.len() == self.todo@.len());
                self.at = self.at + 1;
                self.go_next_interface()
            },
            Phase::ActiveGroup => {
                let busy = match &value {
                    Some(group) => !text::same(group.as_str(), "/"),
                    None => false,
                };
                if busy {
                    return Err(HelperError::GroupExists);
                }
                assert(self.todo.len() == self.todo@.len());
                self.at = self.at + 1;
                self.go_next_active()
            },
            Phase::Restoring => match value {
                None => Err(HelperError::Unexpected),
                Some(path) => {
                    let props = match &self.saved {
                        Some(saved) => saved.copied(),
                        None => Fields::new(),
                    };
                    proof {
                        lemma_groups_push(self.groups@, (path, props));
                    }
                    self.groups.push((path, props));
                    self.phase = Phase::Restored;
                    Ok(status("restoring saved pairing from disk", true))
                },
            },
            Phase::InterfaceName => match value {
                None => Err(HelperError::Unexpected),
                Some(name) => {
                    self.name = name;
                    let group = match &self.info {
                        Some(info) => copy_text(&info.group),
                        None => None,
                    };
                    match group {
                        None => Err(HelperError::NoGroup),
                        Some(group) => {
                            self.group = group.clone();
                            self.phase = Phase::Owner;
                            Ok(Task::ReadOwner { group })
                        },
                    }
                },
            },
            _ => Err(HelperError::Unexpected),
        }
    }

    fn on_bytes(&mut self, bytes: Vec<u8>) -> (r: Result<Task, HelperError>)
        requires
            on_the_way(old(self)@),
        ensures
            final(self)@ == advanced(old(self)@, ReplyModel::Bytes(bytes@)).state,
            fulfils(r, advanced(old(self)@, ReplyModel::Bytes(bytes@)).result),
    {
        match self.phase {
            Phase::Address => {
                let address = credentials::write_address(bytes.as_slice());
                if text::same(address.as_str(), self.request.peer.as_str()) {
                    self.parent = Some(self.current());
                    self.peer = self.peers[self.peer_at].clone();
                    assert(self.todo.len() == self.todo@.len());
                    self.at = self.at + 1;
                    return self.go_next_interface();
                }
                assert(self.peers.len() == self.peers@.len());
                self.peer_at = self.peer_at + 1;
                self.go_next_peer()
            },
            Phase::Advertised => {
                self.cleanup.advertisement = Some(bytes);
                self.phase = Phase::Advertising;
                Ok(Task::SetAdvertisement(network::wfd_source_r2()))
            },
            Phase::Owner => {
                self.owner_length = bytes.len();
                let peer = self.peer.clone();
                self.phase = Phase::Membership;
                Ok(Task::ReadMembership { peer })
            },
            Phase::Network => {
                self.ssid = bytes;
                let interface = expected_text(&self.parent);
                self.phase = Phase::RetainedGroups;
                Ok(Task::ListGroups { interface })
            },
            _ => Err(HelperError::Unexpected),
        }
    }

    fn on_properties(&mut self, props: Fields) -> (r: Result<Task, HelperError>)
        requires
            on_the_way(old(self)@),
        ensures
            final(self)@ == advanced(old(self)@, ReplyModel::Properties(props@)).state,
            fulfils(r, advanced(old(self)@, ReplyModel::Properties(props@)).result),
    {
        match self.phase {
            Phase::Group => {
                if credentials::matches_peer(&props, self.request.peer.as_str()) {
                    let path = self.current();
                    proof {
                        lemma_groups_push(self.groups@, (path, props));
                    }
                    self.groups.push((path, props));
                }
                assert(self.todo.len() == self.todo@.len());
                self.at = self.at + 1;
                self.go_next_group()
            },
            Phase::RetainedGroup => {
                if credentials::matches_peer(&props, self.request.peer.as_str()) {
                    let path = self.current();
                    proof {
                        lemma_groups_push(self.retained@, (path, props));
                    }
                    self.retained.push((path, props));
                }
                assert(self.todo.len() == self.todo@.len());
                self.at = self.at + 1;
                self.go_next_retained()
            },
            _ => Err(HelperError::Unexpected),
        }
    }

    fn on_saved(&mut self, saved: Option<Fields>) -> (r: Result<Task, HelperError>)
        requires
            on_the_way(old(self)@),
        ensures
            final(self)@ == advanced(old(self)@, ReplyModel::Saved(helper::saved_view(saved))).state,
            fulfils(r, advanced(old(self)@, ReplyModel::Saved(helper::saved_view(saved))).result),
    {
        match self.phase {
            Phase::Inspection => {
                let count: usize = if saved.is_some() {
                    1
                } else {
                    0
                };
                self.go_tell_count(count)
            },
            Phase::Loading => {
                self.saved = saved;
                if self.groups.len() > 0 {
                    return self.go_with_groups();
                }
                let values = match &self.saved {
                    None => {
                        return self.go_with_groups();
                    },
                    Some(props) => match credentials::restore_properties(props) {
                        Ok(values) => values,
                        Err(e) => {
                            return Err(HelperError::Credential(e));
                        },
                    },
                };
                let interface = expected_text(&self.parent);
                self.phase = Phase::Restoring;
                Ok(Task::Restore { interface, values })
            },
            _ => Err(HelperError::Unexpected),
        }
    }

    fn go_subscribed(&mut self) -> (r: Result<Task, HelperError>)
        requires
            on_the_way(old(self)@),
            old(self)@.phase == Phase::Subscribing,
        ensures
            final(self)@ == after_done(old(self)@).state,
            fulfils(r, after_done(old(self)@).result),
    {
        self.cleanup.parent = copy_text(&self.parent);
        self.phase = Phase::Advertised;
        Ok(Task::ReadAdvertisement)
    }

    fn go_advertised(&mut self) -> (r: Result<Task, HelperError>)
        requires
            on_the_way(old(self)@),
            old(self)@.phase == Phase::Advertising,
        ensures
            final(self)@ == after_done(old(self)@).state,
            fulfils(r, after_done(old(self)@).result),
    {
        self.cleanup.initiated = true;
        if self.groups.len() > 0 {
            self.phase = Phase::Inviting;
            Ok(status("reinviting saved persistent group", true))
        } else {
            self.phase = Phase::Announcing;
            Ok(
                status(
                    "first persistent pairing; confirm Wi-Fi Direct on TV if requested",
                    false,
                ),
            )
        }
    }

    fn go_invite(&mut self) -> (r: Result<Task, HelperError>)
        requires
            on_the_way(old(self)@),
            old(self)@.phase == Phase::Inviting,
        ensures
            final(self)@ == after_done(old(self)@).state,
            fulfils(r, after_done(old(self)@).result),
    {
        let i: usize = match helper::choose_group(self.groups.as_slice(), &self.saved) {
            Some(i) => i,
            None => {
                return Err(HelperError::Unexpected);
            },
        };
        proof {
            assert(helper::group_views(self.groups@)[i as int].0 == self.groups@[i as int].0@);
        }
        let interface = expected_text(&self.parent);
        let peer = self.peer.clone();
        let group = self.groups[i].0.clone();
        self.phase = Phase::Invited;
        Ok(Task::Invite { interface, peer, group })
    }

    fn go_pair(&mut self) -> (r: Result<Task, HelperError>)
        requires
            on_the_way(old(self)@),
            old(self)@.phase == Phase::Announcing,
        ensures
            final(self)@ == after_done(old(self)@).state,
            fulfils(r, after_done(old(self)@).result),
    {
        let interface = expected_text(&self.parent);
        let peer = self.peer.clone();
        self.phase = Phase::Pairing;
        Ok(Task::Pair { interface, peer, persistent: true, method: "pbc", intent: 7 })
    }

    fn go_ready(&mut self) -> (r: Result<Task, HelperError>)
        requires
            on_the_way(old(self)@),
            old(self)@.phase == Phase::Configuring,
        ensures
            final(self)@ == after_done(old(self)@).state,
            fulfils(r, after_done(old(self)@).result),
    {
        let name = self.name.clone();
        let reused = self.reused;
        self.phase = Phase::Telling;
        Ok(
            Task::Tell(
                Notice {
                    event: "ready",
                    message: None,
                    interface: Some(name),
                    reused: Some(reused),
                    count: None,
                },
            ),
        )
    }

    /// The steps that change nothing but the task that is out.
    fn go_after_done(&mut self) -> (r: Result<Task, HelperError>)
        requires
            !changes_more(old(self)@.phase),
        ensures
            final(self)@ == after_done(old(self)@).state,
            fulfils(r, after_done(old(self)@).result),
    {
        let (phase, task) = match self.phase {
            Phase::Inspected => (Phase::Over, Task::Finished),
            Phase::Invited => (Phase::Awaiting, Task::AwaitGroup),
            Phase::Pairing => (Phase::Awaiting, Task::AwaitGroup),
            Phase::Telling => (Phase::Holding, Task::Hold),
            _ => {
                return Err(HelperError::Unexpected);
            },
        };
        self.phase = phase;
        Ok(task)
    }

    /// From the pairings that there are to the one that is asked for.
    fn go_to_pairing(&mut self) -> (r: Result<Task, HelperError>)
        requires
            on_the_way(old(self)@),
            old(self)@.phase == Phase::Subscribing || old(self)@.phase == Phase::Advertising || old(
                self,
            )@.phase == Phase::Inviting || old(self)@.phase == Phase::Announcing,
        ensures
            final(self)@ == after_done(old(self)@).state,
            fulfils(r, after_done(old(self)@).result),
    {
        match self.phase {
            Phase::Subscribing => self.go_subscribed(),
            Phase::Advertising => self.go_advertised(),
            Phase::Inviting => self.go_invite(),
            _ => self.go_pair(),
        }
    }

    fn on_done(&mut self) -> (r: Result<Task, HelperError>)
        requires
            on_the_way(old(self)@),
        ensures
            final(self)@ == advanced(old(self)@, ReplyModel::Done).state,
            fulfils(r, advanced(old(self)@, ReplyModel::Done).result),
    {
        match self.phase {
            Phase::Restored => self.go_with_groups(),
            Phase::Subscribing | Phase::Advertising | Phase::Inviting | Phase::Announcing => {
                self.go_to_pairing()
            },
            Phase::Saving => self.go_with_pairing_kept(),
            Phase::Configuring => self.go_ready(),
            _ => self.go_after_done(),
        }
    }

    /// What came of the task that is out.
    #[verifier::spinoff_prover]
    fn take(&mut self, reply: Reply) -> (r: Result<Task, HelperError>)
        requires
            on_the_way(old(self)@),
        ensures
            final(self)@ == advanced(old(self)@, reply@).state,
            fulfils(r, advanced(old(self)@, reply@).result),
    {
        match reply {
            Reply::Paths(paths) => self.on_paths(paths),
            Reply::Text(value) => self.on_text(value),
            Reply::Bytes(bytes) => self.on_bytes(bytes),
            Reply::Properties(props) => self.on_properties(props),
            Reply::Saved(saved) => self.on_saved(saved),
            Reply::Group(info) => self.on_group(info),
            Reply::Done => self.on_done(),
        }
    }

    fn on_group(&mut self, info: GroupInfo) -> (r: Result<Task, HelperError>)
        requires
            on_the_way(old(self)@),
        ensures
            final(self)@ == advanced(old(self)@, ReplyModel::Group(info)).state,
            fulfils(r, advanced(old(self)@, ReplyModel::Group(info)).result),
    {
        match self.phase {
            Phase::Awaiting => self.go_with_group(info),
            _ => Err(HelperError::Unexpected),
        }
    }

    /// What came of the task that is out: the next one, or why the way ends.
    #[verifier::spinoff_prover]
    pub fn advance(&mut self, reply: Reply) -> (r: Result<Task, HelperError>)
        requires
            on_the_way(old(self)@),
        ensures
            final(self)@ == advanced(old(self)@, reply@).state,
            fulfils(r, advanced(old(self)@, reply@).result),
            r is Ok ==> on_the_way(final(self)@),
    {
        proof {
            law_steps_stay_on_the_way(self@, reply@);
        }
        self.take(reply)
    }
}

// ---------------------------------------------------------------------------
// Laws of the way
// ---------------------------------------------------------------------------

/// The phases of an inspection.
pub open spec fn is_inspecting(phase: Phase) -> bool {
    phase == Phase::Interfaces || phase == Phase::Name || phase == Phase::Peers || phase
        == Phase::Address || phase == Phase::Groups || phase == Phase::Group || phase
        == Phase::Inspection || phase == Phase::Inspected || phase == Phase::Over
}

/// The tasks that only ask.
pub open spec fn only_asks(task: TaskModel) -> bool {
    match task {
        TaskModel::ReadName { .. } => true,
        TaskModel::ListPeers { .. } => true,
        TaskModel::ReadAddress { .. } => true,
        TaskModel::ListGroups { .. } => true,
        TaskModel::ReadGroup { .. } => true,
        TaskModel::Load => true,
        TaskModel::Tell(_) => true,
        TaskModel::Finished => true,
        _ => false,
    }
}

/// What every step keeps.
spec fn keeps(s: ConnectingModel, next: Advance) -> bool {
    &&& on_the_way(s) && next.result is Ok ==> on_the_way(next.state)
    &&& on_the_way(s) && next.result is Ok && next.result->Ok_0 is Pair ==> s.allow_pairing
        && s.groups.len() == 0
    &&& next.state.target == s.target
    &&& next.state.allow_pairing == s.allow_pairing
    &&& next.state.timeout_secs == s.timeout_secs
    &&& next.state.operation == s.operation
    &&& s.parent is Some ==> next.state.parent is Some
    &&& s.operation == Operation::Inspect && is_inspecting(s.phase) && next.result is Ok
        ==> next.state.cleanup == s.cleanup && is_inspecting(next.state.phase) && only_asks(
        next.result->Ok_0,
    )
    &&& next.result is Ok && next.result->Ok_0 is Configure ==> s.info is Some
        && helper::addresses_confirmed(s.info->Some_0) && helper::is_configurable(s.name)
        && next.result->Ok_0->Configure_name == s.name && helper::bytes_view(
        s.info->Some_0.local_address,
    ) == Some(next.result->Ok_0->Configure_address) && helper::bytes_view(s.info->Some_0.mask)
        == Some(next.result->Ok_0->Configure_mask)
    &&& next.result is Ok && next.result->Ok_0 is Tell && next.result->Ok_0->Tell_0.event
        == "ready"@ ==> s.phase == Phase::Configuring
    &&& s.cleanup.initiated ==> next.state.cleanup.initiated
    &&& s.cleanup.parent is Some && s.parent is Some ==> next.state.cleanup.parent is Some
    &&& s.cleanup.group is Some ==> next.state.cleanup.group is Some
    &&& s.cleanup.advertisement is Some ==> next.state.cleanup.advertisement is Some
}

/// The notices differ.
proof fn lemma_events()
    ensures
        "status"@ != "ready"@,
        "inspection"@ != "ready"@,
{
    reveal_strlit("ready");
    reveal_strlit("status");
    reveal_strlit("inspection");
    assert("ready"@.len() == 5);
    assert("status"@.len() == 6);
    assert("inspection"@.len() == 10);
}

/// Lists keep what every step keeps.
proof fn lemma_paths_kept(s: ConnectingModel, paths: Seq<Seq<char>>)
    ensures
        keeps(s, after_paths(s, paths)),
{
    lemma_events();
}

/// Names keep what every step keeps.
proof fn lemma_text_kept(s: ConnectingModel, value: Option<Seq<char>>)
    ensures
        keeps(s, after_text(s, value)),
{
    lemma_events();
}

/// Bytes keep what every step keeps.
proof fn lemma_bytes_kept(s: ConnectingModel, bytes: Seq<u8>)
    ensures
        keeps(s, after_bytes(s, bytes)),
{
    lemma_events();
}

/// Properties keep what every step keeps.
proof fn lemma_properties_kept(s: ConnectingModel, props: Map<Seq<char>, Seq<char>>)
    ensures
        keeps(s, after_properties(s, props)),
{
    lemma_events();
}

/// The saved pairing keeps what every step keeps.
proof fn lemma_saved_kept(s: ConnectingModel, saved: Option<Map<Seq<char>, Seq<char>>>)
    ensures
        keeps(s, after_saved(s, saved)),
{
    lemma_events();
}

/// A group keeps what every step keeps.
proof fn lemma_group_kept(s: ConnectingModel, info: GroupInfo)
    ensures
        keeps(s, after_group(s, info)),
{
    lemma_events();
}

/// What is done keeps what every step keeps.
proof fn lemma_done_kept(s: ConnectingModel)
    ensures
        keeps(s, after_done(s)),
{
    lemma_events();
}

/// Every reply keeps what every step keeps.
proof fn lemma_kept(s: ConnectingModel, reply: ReplyModel)
    ensures
        keeps(s, advanced(s, reply)),
{
    match reply {
        ReplyModel::Paths(paths) => lemma_paths_kept(s, paths),
        ReplyModel::Text(value) => lemma_text_kept(s, value),
        ReplyModel::Bytes(bytes) => lemma_bytes_kept(s, bytes),
        ReplyModel::Properties(props) => lemma_properties_kept(s, props),
        ReplyModel::Saved(saved) => lemma_saved_kept(s, saved),
        ReplyModel::Group(info) => lemma_group_kept(s, info),
        ReplyModel::Done => lemma_done_kept(s),
    }
}

/// Every step that goes on stays on the way.
pub proof fn law_steps_stay_on_the_way(s: ConnectingModel, reply: ReplyModel)
    requires
        on_the_way(s),
    ensures
        advanced(s, reply).result is Ok ==> on_the_way(advanced(s, reply).state),
{
    lemma_kept(s, reply);
}

/// A new pairing is asked for only where that is allowed and there is no pairing yet.
pub proof fn law_pairing_needs_leave(s: ConnectingModel, reply: ReplyModel)
    requires
        on_the_way(s),
        advanced(s, reply).result is Ok,
        advanced(s, reply).result->Ok_0 is Pair,
    ensures
        s.allow_pairing,
        s.groups.len() == 0,
{
    lemma_kept(s, reply);
}

/// The request stays as it was, and a display that was found stays found.
pub proof fn law_the_target_stays(s: ConnectingModel, reply: ReplyModel)
    ensures
        advanced(s, reply).state.target == s.target,
        advanced(s, reply).state.allow_pairing == s.allow_pairing,
        advanced(s, reply).state.timeout_secs == s.timeout_secs,
        advanced(s, reply).state.operation == s.operation,
        s.parent is Some ==> advanced(s, reply).state.parent is Some,
{
    lemma_kept(s, reply);
}

/// An inspection changes nothing: it asks for lists and properties, and tells a number.
pub proof fn law_inspections_change_nothing(s: ConnectingModel, reply: ReplyModel)
    requires
        s.operation == Operation::Inspect,
        is_inspecting(s.phase),
        advanced(s, reply).result is Ok,
    ensures
        advanced(s, reply).state.cleanup == s.cleanup,
        is_inspecting(advanced(s, reply).state.phase),
        only_asks(advanced(s, reply).result->Ok_0),
{
    lemma_kept(s, reply);
}

/// An interface is given an address only when the addresses that are asked for were agreed
/// on, and then the agreed one, and only where it is one of Wi-Fi Direct.
pub proof fn law_configured_interfaces_are_confirmed(s: ConnectingModel, reply: ReplyModel)
    requires
        advanced(s, reply).result is Ok,
        advanced(s, reply).result->Ok_0 is Configure,
    ensures
        s.info is Some,
        helper::addresses_confirmed(s.info->Some_0),
        helper::is_configurable(s.name),
        advanced(s, reply).result->Ok_0->Configure_name == s.name,
        helper::bytes_view(s.info->Some_0.local_address) == Some(
            advanced(s, reply).result->Ok_0->Configure_address,
        ),
        helper::bytes_view(s.info->Some_0.mask) == Some(
            advanced(s, reply).result->Ok_0->Configure_mask,
        ),
{
    lemma_kept(s, reply);
}

/// Whether every pairing of a list is one with a display.
pub open spec fn all_with(
    groups: Seq<(Seq<char>, Map<Seq<char>, Seq<char>>)>,
    target: Seq<char>,
) -> bool {
    forall|i: int|
        0 <= i < groups.len() ==> credentials::is_pairing_with(#[trigger] groups[i].1, target)
}

/// The newest group of a network name is one of the list, and has that name.
proof fn lemma_newest(
    groups: Seq<(Seq<char>, Map<Seq<char>, Seq<char>>)>,
    ssid: Seq<u8>,
    n: int,
)
    requires
        n <= groups.len(),
    ensures
        helper::newest_of(groups, ssid, n) is Some ==> {
            let i = helper::newest_of(groups, ssid, n)->Some_0;
            0 <= i < n && credentials::network_of(groups[i].1) == Some(ssid)
        },
    decreases n,
{
    if n > 0 {
        lemma_newest(groups, ssid, n - 1);
    }
}

/// What follows the groups that were kept.
proof fn lemma_retained(s: ConnectingModel)
    requires
        all_with(s.retained, s.target),
    ensures
        next_retained(s).state.retained == s.retained,
        next_retained(s).result is Ok && next_retained(s).result->Ok_0 is Save ==> {
            let props = next_retained(s).result->Ok_0->props;
            &&& credentials::is_pairing_with(props, s.target)
            &&& credentials::network_of(props) == Some(s.ssid)
            &&& props.contains_key("psk"@)
        },
{
    lemma_newest(s.retained, s.ssid, s.retained.len() as int);
}

/// Nothing is saved, and what was kept stays listed.
spec fn saves_nothing(s: ConnectingModel, next: Advance) -> bool {
    &&& next.state.retained == s.retained
    &&& !(next.result matches Ok(TaskModel::Save { .. }))
}

/// A text saves nothing.
proof fn lemma_text_saves_nothing(s: ConnectingModel, value: Option<Seq<char>>)
    ensures
        saves_nothing(s, after_text(s, value)),
{
}

/// Bytes save nothing.
proof fn lemma_bytes_save_nothing(s: ConnectingModel, bytes: Seq<u8>)
    ensures
        saves_nothing(s, after_bytes(s, bytes)),
{
}

/// A saved pairing saves nothing.
proof fn lemma_saved_saves_nothing(s: ConnectingModel, saved: Option<Map<Seq<char>, Seq<char>>>)
    ensures
        saves_nothing(s, after_saved(s, saved)),
{
}

/// A group saves nothing.
proof fn lemma_group_saves_nothing(s: ConnectingModel, info: GroupInfo)
    ensures
        saves_nothing(s, after_group(s, info)),
{
}

/// Something done saves nothing.
proof fn lemma_done_saves_nothing(s: ConnectingModel)
    ensures
        saves_nothing(s, after_done(s)),
{
}

/// What is saved is a pairing with the display, of the network that is connected, with a
/// key. The list of what was kept holds no others.
pub proof fn law_saved_pairings_are_with_the_display(s: ConnectingModel, reply: ReplyModel)
    requires
        all_with(s.retained, s.target),
    ensures
        all_with(advanced(s, reply).state.retained, s.target),
        advanced(s, reply).result is Ok && advanced(s, reply).result->Ok_0 is Save ==> {
            let props = advanced(s, reply).result->Ok_0->props;
            &&& credentials::is_pairing_with(props, s.target)
            &&& credentials::network_of(props) == Some(s.ssid)
            &&& props.contains_key("psk"@)
        },
{
    match reply {
        ReplyModel::Paths(paths) => {
            lemma_retained(ConnectingModel { todo: paths, at: 0, ..s });
        },
        ReplyModel::Properties(props) => {
            let kept = if credentials::is_pairing_with(props, s.target) {
                s.retained.push((s.todo[s.at], props))
            } else {
                s.retained
            };
            assert(all_with(kept, s.target));
            lemma_retained(ConnectingModel { retained: kept, at: s.at + 1, ..s });
        },
        ReplyModel::Text(value) => lemma_text_saves_nothing(s, value),
        ReplyModel::Bytes(bytes) => lemma_bytes_save_nothing(s, bytes),
        ReplyModel::Saved(saved) => lemma_saved_saves_nothing(s, saved),
        ReplyModel::Group(info) => lemma_group_saves_nothing(s, info),
        ReplyModel::Done => lemma_done_saves_nothing(s),
    }
}

/// The connection is told to be up only after its interface was given its address.
pub proof fn law_ready_follows_the_address(s: ConnectingModel, reply: ReplyModel)
    requires
        advanced(s, reply).result is Ok,
        advanced(s, reply).result->Ok_0 is Tell,
        advanced(s, reply).result->Ok_0->Tell_0.event == "ready"@,
    ensures
        s.phase == Phase::Configuring,
{
    lemma_kept(s, reply);
}

/// Whatever happens, what has to be undone is known: no step forgets any of it.
pub proof fn law_the_cleanup_is_kept(s: ConnectingModel, reply: ReplyModel)
    ensures
        s.cleanup.initiated ==> advanced(s, reply).state.cleanup.initiated,
        s.cleanup.parent is Some && s.parent is Some ==> advanced(
            s,
            reply,
        ).state.cleanup.parent is Some,
        s.cleanup.group is Some ==> advanced(s, reply).state.cleanup.group is Some,
        s.cleanup.advertisement is Some ==> advanced(
            s,
            reply,
        ).state.cleanup.advertisement is Some,
{
    lemma_kept(s, reply);
}

// ---------------------------------------------------------------------------
// Cleaning up
// ---------------------------------------------------------------------------

/// What is undone first.
pub enum Undo {
    /// Leave the group.
    Disconnect(String),
    /// Stop what was started; then look for a group that came up meanwhile.
    Cancel(String),
    Nothing,
}

/// What is undone first, in a model.
pub ghost enum UndoModel {
    Disconnect(Seq<char>),
    Cancel(Seq<char>),
    Nothing,
}

impl View for Undo {
    type V = UndoModel;

    open spec fn view(&self) -> UndoModel {
        match self {
            Undo::Disconnect(s) => UndoModel::Disconnect(s@),
            Undo::Cancel(s) => UndoModel::Cancel(s@),
            Undo::Nothing => UndoModel::Nothing,
        }
    }
}

impl Cleanup {
    /// What is undone first: the group where there is one, else what was started.
    pub fn first(&self) -> (r: Undo)
        ensures
            r@ == match (self@.group, self@.parent) {
                (Some(group), _) => UndoModel::Disconnect(group),
                (None, Some(parent)) => if self@.initiated {
                    UndoModel::Cancel(parent)
                } else {
                    UndoModel::Nothing
                },
                (None, None) => UndoModel::Nothing,
            },
    {
        match &self.group {
            Some(group) => Undo::Disconnect(group.clone()),
            None => match &self.parent {
                Some(parent) => if self.initiated {
                    Undo::Cancel(parent.clone())
                } else {
                    Undo::Nothing
                },
                None => Undo::Nothing,
            },
        }
    }

    /// Whether an interface was not there before.
    pub fn is_new(&self, interface: &str) -> (r: bool)
        ensures
            r == !self@.previous_interfaces.contains(interface@),
    {
        !has_text(&self.previous_interfaces, interface)
    }

    /// Whether a group that came up meanwhile is one that the service started: on a new
    /// interface of Wi-Fi Direct, and a group of the display.
    pub fn is_ours(&self, interface: &str, group: &str, peer_groups: &Vec<String>, name: &str) -> (r:
        bool)
        ensures
            r == (!self@.previous_interfaces.contains(interface@) && list_view(
                peer_groups@,
            ).contains(group@) && text::starts_with(name@, "p2p-"@)),
    {
        let chars = text::chars_of(name);
        self.is_new(interface) && has_text(peer_groups, group) && text::has_prefix(
            chars.as_slice(),
            "p2p-",
        )
    }

    /// The advertisement to put back: the one from before, unless somebody else has changed
    /// it since.
    pub fn restored_advertisement(&self, current: &Option<Vec<u8>>) -> (r: Option<Vec<u8>>)
        ensures
            helper::bytes_view(r) == if helper::bytes_view(*current) == Some(
                network::source_elements(),
            ) {
                self@.advertisement
            } else {
                None
            },
    {
        let ours = match current {
            Some(bytes) => {
                let expected = network::wfd_source_r2();
                credentials::same_bytes(bytes.as_slice(), expected.as_slice())
            },
            None => false,
        };
        if !ours {
            return None;
        }
        match &self.advertisement {
            Some(old) => {
                let mut v: Vec<u8> = Vec::new();
                v.extend_from_slice(old.as_slice());
                proof {
                    assert(v@ =~= old@);
                }
                Some(v)
            },
            None => None,
        }
    }
}

} // verus!
