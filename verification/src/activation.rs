//! A connection by way of NetworkManager: that nothing is in its way, and that it comes up.
use crate::network;
use crate::network::{Addresses, NetworkError};
use crate::text;
use vstd::prelude::*;

verus! {

// ---------------------------------------------------------------------------
// Nothing in the way
// ---------------------------------------------------------------------------

/// What is to be asked next.
#[derive(Debug, PartialEq, Eq)]
pub enum Question {
    /// The connection of a device.
    Device(String),
    /// The connections that are up.
    Connections,
    /// The kind and the state of a connection.
    Connection(String),
    /// Nothing more: no connection is in the way.
    Available,
}

/// What is to be asked next, in a model.
pub ghost enum QuestionModel {
    Device(Seq<char>),
    Connections,
    Connection(Seq<char>),
    Available,
}

impl View for Question {
    type V = QuestionModel;

    open spec fn view(&self) -> QuestionModel {
        match self {
            Question::Device(s) => QuestionModel::Device(s@),
            Question::Connections => QuestionModel::Connections,
            Question::Connection(s) => QuestionModel::Connection(s@),
            Question::Available => QuestionModel::Available,
        }
    }
}

/// What came of a question.
#[derive(Debug)]
pub enum Answer {
    /// The path of the device's connection.
    Active(String),
    Paths(Vec<String>),
    Connection { kind: String, state: u32 },
}

/// Which question is out.
#[derive(Clone, Copy, Debug, PartialEq, Eq, Structural)]
pub enum Asked {
    Device,
    Connections,
    Connection,
    Nothing,
}

/// How far the questions are.
pub struct Availability {
    asked: Asked,
    paths: Vec<String>,
    at: usize,
}

/// How far the questions are, in a model.
pub ghost struct AvailabilityModel {
    pub asked: Asked,
    /// The connections that are up, and the one that is looked at.
    pub paths: Seq<Seq<char>>,
    pub at: int,
}

impl View for Availability {
    type V = AvailabilityModel;

    closed spec fn view(&self) -> AvailabilityModel {
        AvailabilityModel {
            asked: self.asked,
            paths: network::text_views(self.paths@),
            at: self.at as int,
        }
    }
}

/// What an answer leads to.
pub ghost struct Inquiry {
    pub state: AvailabilityModel,
    pub result: Result<QuestionModel, NetworkError<Seq<char>>>,
}

/// The next connection to look at, or the end.
pub open spec fn next_connection(s: AvailabilityModel) -> Inquiry {
    if s.at < s.paths.len() {
        Inquiry {
            state: AvailabilityModel { asked: Asked::Connection, ..s },
            result: Ok(QuestionModel::Connection(s.paths[s.at])),
        }
    } else {
        Inquiry {
            state: AvailabilityModel { asked: Asked::Nothing, ..s },
            result: Ok(QuestionModel::Available),
        }
    }
}

/// What an answer leads to: a device with a connection, or a connection of Wi-Fi Direct that
/// is not deactivated, is in the way.
pub open spec fn inquired(s: AvailabilityModel, answer: Answer) -> Inquiry {
    match (s.asked, answer) {
        (Asked::Device, Answer::Active(path)) => if path@ != "/"@ {
            Inquiry { state: s, result: Err(NetworkError::DeviceBusy(path@)) }
        } else {
            Inquiry {
                state: AvailabilityModel { asked: Asked::Connections, ..s },
                result: Ok(QuestionModel::Connections),
            }
        },
        (Asked::Connections, Answer::Paths(paths)) => next_connection(
            AvailabilityModel { paths: network::text_views(paths@), at: 0, ..s },
        ),
        (Asked::Connection, Answer::Connection { kind, state }) => if kind@ == "wifi-p2p"@ && state
            != 4 {
            Inquiry { state: s, result: Err(NetworkError::ConnectionBusy(s.paths[s.at])) }
        } else {
            next_connection(AvailabilityModel { at: s.at + 1, ..s })
        },
        _ => Inquiry { state: s, result: Err(NetworkError::Unexpected) },
    }
}

/// What holds throughout: a connection that is looked at is one of those that are up.
pub open spec fn is_asking(s: AvailabilityModel) -> bool {
    &&& 0 <= s.at <= s.paths.len()
    &&& s.asked == Asked::Connection ==> s.at < s.paths.len()
}

impl Availability {
    /// The first question: the connection of the device.
    pub fn new(device: &str) -> (r: (Availability, Question))
        ensures
            r.0@ == (AvailabilityModel { asked: Asked::Device, paths: Seq::empty(), at: 0 }),
            r.1@ == QuestionModel::Device(device@),
            is_asking(r.0@),
    {
        let a = Availability { asked: Asked::Device, paths: Vec::new(), at: 0 };
        proof {
            assert(network::text_views(a.paths@) =~= Seq::<Seq<char>>::empty());
        }
        (a, Question::Device(device.to_owned()))
    }

    fn go_next(&mut self) -> (r: Question)
        ensures
            final(self)@ == next_connection(old(self)@).state,
            Ok::<QuestionModel, NetworkError<Seq<char>>>(r@) == next_connection(
                old(self)@,
            ).result,
    {
        if self.at < self.paths.len() {
            self.asked = Asked::Connection;
            Question::Connection(self.paths[self.at].clone())
        } else {
            self.asked = Asked::Nothing;
            Question::Available
        }
    }

    /// What came of the question that is out: the next one, or what is in the way.
    pub fn advance(&mut self, answer: Answer) -> (r: Result<Question, NetworkError<String>>)
        requires
            is_asking(old(self)@),
        ensures
            final(self)@ == inquired(old(self)@, answer).state,
            is_asking(final(self)@),
            match inquired(old(self)@, answer).result {
                Ok(question) => r is Ok && r->Ok_0@ == question,
                Err(e) => r is Err && r->Err_0.view() == e,
            },
    {
        match self.asked {
            Asked::Device => match answer {
                Answer::Active(path) => {
                    network::check_device_idle(path.as_str())?;
                    self.asked = Asked::Connections;
                    Ok(Question::Connections)
                },
                _ => Err(NetworkError::Unexpected),
            },
            Asked::Connections => match answer {
                Answer::Paths(paths) => {
                    self.paths = paths;
                    self.at = 0;
                    Ok(self.go_next())
                },
                _ => Err(NetworkError::Unexpected),
            },
            Asked::Connection => match answer {
                Answer::Connection { kind, state } => {
                    network::check_connection_idle(
                        self.paths[self.at].as_str(),
                        kind.as_str(),
                        state,
                    )?;
                    assert(self.paths.len() == self.paths@.len());
                    self.at = self.at + 1;
                    Ok(self.go_next())
                },
                _ => Err(NetworkError::Unexpected),
            },
            Asked::Nothing => Err(NetworkError::Unexpected),
        }
    }
}

// ---------------------------------------------------------------------------
// Coming up
// ---------------------------------------------------------------------------

/// What is to be done next.
#[derive(Debug, PartialEq, Eq)]
pub enum Task {
    ReadState,
    ListDevices,
    /// The path of a device's addresses.
    ReadConfig { device: String },
    ReadAddresses { config: String },
    /// The name of the interface that has the addresses.
    ReadIpInterface { device: String },
    ReadInterface { device: String },
    /// Wait a moment.
    Pause,
    /// The connection is up.
    Connected { interface: String },
}

/// What is to be done next, in a model.
pub ghost enum TaskModel {
    ReadState,
    ListDevices,
    ReadConfig { device: Seq<char> },
    ReadAddresses { config: Seq<char> },
    ReadIpInterface { device: Seq<char> },
    ReadInterface { device: Seq<char> },
    Pause,
    Connected { interface: Seq<char> },
}

impl View for Task {
    type V = TaskModel;

    open spec fn view(&self) -> TaskModel {
        match self {
            Task::ReadState => TaskModel::ReadState,
            Task::ListDevices => TaskModel::ListDevices,
            Task::ReadConfig { device } => TaskModel::ReadConfig { device: device@ },
            Task::ReadAddresses { config } => TaskModel::ReadAddresses { config: config@ },
            Task::ReadIpInterface { device } => TaskModel::ReadIpInterface { device: device@ },
            Task::ReadInterface { device } => TaskModel::ReadInterface { device: device@ },
            Task::Pause => TaskModel::Pause,
            Task::Connected { interface } => TaskModel::Connected { interface: interface@ },
        }
    }
}

/// What came of a task.
#[derive(Debug)]
pub enum Reply {
    State(u32),
    Paths(Vec<String>),
    /// A path or the name of an interface.
    Text(String),
    /// The addresses, as far as they are texts.
    Addresses(Vec<Option<String>>),
    Done,
}

/// Which task is out.
#[derive(Clone, Copy, Debug, PartialEq, Eq, Structural)]
pub enum Phase {
    State,
    Devices,
    Config,
    Addresses,
    IpInterface,
    Interface,
    Pausing,
    Over,
}

/// How far a connection is.
pub struct Activation {
    phase: Phase,
    state: u32,
    devices: Vec<String>,
    at: usize,
    deadline: u64,
}

/// How far a connection is, in a model.
pub ghost struct ActivationModel {
    pub phase: Phase,
    /// The state that was last seen.
    pub state: u32,
    /// The devices of the connection, and the one that is looked at.
    pub devices: Seq<Seq<char>>,
    pub at: int,
    /// When to give up, in milliseconds.
    pub deadline: u64,
}

impl View for Activation {
    type V = ActivationModel;

    closed spec fn view(&self) -> ActivationModel {
        ActivationModel {
            phase: self.phase,
            state: self.state,
            devices: network::text_views(self.devices@),
            at: self.at as int,
            deadline: self.deadline,
        }
    }
}

/// What a reply leads to.
pub ghost struct Step {
    pub state: ActivationModel,
    pub result: Result<TaskModel, NetworkError<Seq<char>>>,
}

/// A step that goes on.
pub open spec fn goes(s: ActivationModel, phase: Phase, task: TaskModel) -> Step {
    Step { state: ActivationModel { phase, ..s }, result: Ok(task) }
}

/// A step that ends the wait.
pub open spec fn fails(s: ActivationModel, error: NetworkError<Seq<char>>) -> Step {
    Step { state: s, result: Err(error) }
}

/// The end of a round: a connection that failed, or took too long, is given up.
pub open spec fn round_over(s: ActivationModel, now: u64) -> Step {
    if s.state == 3 || s.state == 4 {
        fails(s, NetworkError::ActivationFailed(s.state))
    } else if now >= s.deadline {
        fails(s, NetworkError::ActivationTimeout)
    } else {
        goes(s, Phase::Pausing, TaskModel::Pause)
    }
}

/// The next device, or the end of the round.
pub open spec fn next_device(s: ActivationModel, now: u64) -> Step {
    if s.at < s.devices.len() {
        goes(s, Phase::Config, TaskModel::ReadConfig { device: s.devices[s.at] })
    } else {
        round_over(s, now)
    }
}

/// The first `n` addresses, those that are there, each in quotation marks.
pub open spec fn quoted_addresses(addresses: Seq<Option<String>>, n: int) -> Seq<Seq<char>>
    decreases n,
{
    if n <= 0 {
        Seq::empty()
    } else {
        let before = quoted_addresses(addresses, n - 1);
        match addresses[n - 1] {
            None => before,
            Some(a) => before.push(text::debug_text(a@)),
        }
    }
}

/// Texts with commas between them.
pub open spec fn with_commas(texts: Seq<Seq<char>>) -> Seq<char>
    decreases texts.len(),
{
    if texts.len() == 0 {
        Seq::empty()
    } else if texts.len() == 1 {
        texts[0]
    } else {
        with_commas(texts.drop_last()) + ", "@ + texts.last()
    }
}

/// A list as it is shown.
pub open spec fn list_text(texts: Seq<Seq<char>>) -> Seq<char> {
    "["@ + with_commas(texts) + "]"@
}

/// What a reply leads to. A connection is up where the address that the firewall permits is
/// among those of one of its devices. Times are in milliseconds.
pub open spec fn advanced(s: ActivationModel, reply: Reply, stop: bool, now: u64) -> Step {
    match (s.phase, reply) {
        (Phase::State, Reply::State(state)) => {
            let next = ActivationModel { state, ..s };
            if state == 2 {
                goes(next, Phase::Devices, TaskModel::ListDevices)
            } else {
                round_over(next, now)
            }
        },
        (Phase::Devices, Reply::Paths(paths)) => next_device(
            ActivationModel { devices: network::text_views(paths@), at: 0, ..s },
            now,
        ),
        (Phase::Config, Reply::Text(config)) => if config@ == "/"@ {
            next_device(ActivationModel { at: s.at + 1, ..s }, now)
        } else {
            goes(s, Phase::Addresses, TaskModel::ReadAddresses { config: config@ })
        },
        (Phase::Addresses, Reply::Addresses(addresses)) => if network::has_local(addresses@) {
            goes(s, Phase::IpInterface, TaskModel::ReadIpInterface { device: s.devices[s.at] })
        } else if addresses@.len() > 0 {
            fails(
                s,
                NetworkError::ForeignAddresses(
                    list_text(quoted_addresses(addresses@, addresses@.len() as int)),
                ),
            )
        } else {
            next_device(ActivationModel { at: s.at + 1, ..s }, now)
        },
        (Phase::IpInterface, Reply::Text(name)) => if name@.len() == 0 {
            goes(s, Phase::Interface, TaskModel::ReadInterface { device: s.devices[s.at] })
        } else {
            goes(s, Phase::Over, TaskModel::Connected { interface: name@ })
        },
        (Phase::Interface, Reply::Text(name)) => goes(
            s,
            Phase::Over,
            TaskModel::Connected { interface: name@ },
        ),
        (Phase::Pausing, Reply::Done) => if stop {
            fails(s, NetworkError::Cancelled)
        } else {
            goes(s, Phase::State, TaskModel::ReadState)
        },
        _ => fails(s, NetworkError::Unexpected),
    }
}

/// What holds throughout: a device that is looked at is one of the connection.
pub open spec fn in_order(s: ActivationModel) -> bool {
    &&& 0 <= s.at <= s.devices.len()
    &&& s.phase == Phase::Config || s.phase == Phase::Addresses || s.phase == Phase::IpInterface
        || s.phase == Phase::Interface ==> s.at < s.devices.len()
}

/// Whether a result is the one that is expected.
pub open spec fn fulfils(
    r: Result<Task, NetworkError<String>>,
    expected: Result<TaskModel, NetworkError<Seq<char>>>,
) -> bool {
    match expected {
        Ok(task) => r is Ok && r->Ok_0@ == task,
        Err(e) => r is Err && r->Err_0.view() == e,
    }
}

/// A list as it is shown.
pub fn show_list(texts: &Vec<String>) -> (r: String)
    ensures
        r@ == list_text(network::text_views(texts@)),
{
    let ghost all = network::text_views(texts@);
    let mut shown = "[".to_owned();
    let mut i: usize = 0;
    proof {
        assert(shown@ + with_commas(all.take(0)) =~= shown@);
    }
    while i < texts.len()
        invariant
            i <= texts@.len(),
            all == network::text_views(texts@),
            shown@ == "["@ + with_commas(all.take(i as int)),
        decreases texts@.len() - i,
    {
        let ghost before = all.take(i as int);
        let ghost after = all.take(i + 1);
        if i > 0 {
            shown.append(", ");
        }
        shown.append(texts[i].as_str());
        proof {
            assert(after.drop_last() =~= before);
            assert(after.last() == texts@[i as int]@);
            assert("["@ + with_commas(after) =~= shown@);
        }
        i = i + 1;
    }
    proof {
        assert(all.take(all.len() as int) =~= all);
    }
    shown.append("]");
    proof {
        assert(shown@ =~= list_text(all));
    }
    shown
}

/// Addresses as they are shown.
fn show_addresses(addresses: &Vec<Option<String>>) -> (r: String)
    ensures
        r@ == list_text(quoted_addresses(addresses@, addresses@.len() as int)),
{
    let mut texts: Vec<String> = Vec::new();
    let mut i: usize = 0;
    proof {
        assert(network::text_views(texts@) =~= Seq::<Seq<char>>::empty());
    }
    while i < addresses.len()
        invariant
            i <= addresses@.len(),
            network::text_views(texts@) == quoted_addresses(addresses@, i as int),
        decreases addresses@.len() - i,
    {
        match &addresses[i] {
            None => {},
            Some(address) => {
                let ghost before = texts@;
                let shown = text::quoted(address.as_str());
                texts.push(shown);
                proof {
                    assert(network::text_views(texts@) =~= network::text_views(before).push(
                        text::debug_text(address@),
                    ));
                }
            },
        }
        i = i + 1;
    }
    show_list(&texts)
}

impl Activation {
    /// The wait for a connection, and its first task; none where the user has given up.
    pub fn new(deadline: u64, stop: bool) -> (r: Result<
        (Activation, Task),
        NetworkError<String>,
    >)
        ensures
            stop ==> r is Err && r->Err_0.view() is Cancelled,
            !stop ==> r is Ok && r->Ok_0.0@ == (ActivationModel {
                phase: Phase::State,
                state: 0,
                devices: Seq::empty(),
                at: 0,
                deadline,
            }) && r->Ok_0.1@ == TaskModel::ReadState && in_order(r->Ok_0.0@),
    {
        network::cancelled(stop)?;
        let a = Activation { phase: Phase::State, state: 0, devices: Vec::new(), at: 0, deadline };
        proof {
            assert(network::text_views(a.devices@) =~= Seq::<Seq<char>>::empty());
        }
        Ok((a, Task::ReadState))
    }

    fn go_round_over(&mut self, now: u64) -> (r: Result<Task, NetworkError<String>>)
        ensures
            final(self)@ == round_over(old(self)@, now).state,
            fulfils(r, round_over(old(self)@, now).result),
    {
        network::check_activation(self.state, now, self.deadline)?;
        self.phase = Phase::Pausing;
        Ok(Task::Pause)
    }

    fn go_next_device(&mut self, now: u64) -> (r: Result<Task, NetworkError<String>>)
        ensures
            final(self)@ == next_device(old(self)@, now).state,
            fulfils(r, next_device(old(self)@, now).result),
    {
        if self.at < self.devices.len() {
            self.phase = Phase::Config;
            return Ok(Task::ReadConfig { device: self.devices[self.at].clone() });
        }
        self.go_round_over(now)
    }

    /// The device that is looked at.
    fn device(&self) -> (r: String)
        requires
            0 <= self@.at < self@.devices.len(),
        ensures
            r@ == self@.devices[self@.at],
    {
        self.devices[self.at].clone()
    }

    /// What came of the task that is out: the next one, or why the wait ends.
    pub fn advance(&mut self, reply: Reply, stop: bool, now: u64) -> (r: Result<
        Task,
        NetworkError<String>,
    >)
        requires
            in_order(old(self)@),
        ensures
            final(self)@ == advanced(old(self)@, reply, stop, now).state,
            fulfils(r, advanced(old(self)@, reply, stop, now).result),
            r is Ok ==> in_order(final(self)@),
    {
        match self.phase {
            Phase::State => match reply {
                Reply::State(state) => {
                    self.state = state;
                    if network::is_active(state) {
                        self.phase = Phase::Devices;
                        return Ok(Task::ListDevices);
                    }
                    self.go_round_over(now)
                },
                _ => Err(NetworkError::Unexpected),
            },
            Phase::Devices => match reply {
                Reply::Paths(paths) => {
                    self.devices = paths;
                    self.at = 0;
                    self.go_next_device(now)
                },
                _ => Err(NetworkError::Unexpected),
            },
            Phase::Config => match reply {
                Reply::Text(config) => {
                    if text::same(config.as_str(), "/") {
                        assert(self.devices.len() == self.devices@.len());
                        self.at = self.at + 1;
                        return self.go_next_device(now);
                    }
                    self.phase = Phase::Addresses;
                    Ok(Task::ReadAddresses { config })
                },
                _ => Err(NetworkError::Unexpected),
            },
            Phase::Addresses => match reply {
                Reply::Addresses(addresses) => match network::judge_addresses(
                    addresses.as_slice(),
                ) {
                    Addresses::Local => {
                        let device = self.device();
                        self.phase = Phase::IpInterface;
                        Ok(Task::ReadIpInterface { device })
                    },
                    Addresses::Foreign => Err(
                        NetworkError::ForeignAddresses(show_addresses(&addresses)),
                    ),
                    Addresses::Missing => {
                        assert(self.devices.len() == self.devices@.len());
                        self.at = self.at + 1;
                        self.go_next_device(now)
                    },
                },
                _ => Err(NetworkError::Unexpected),
            },
            Phase::IpInterface => match reply {
                Reply::Text(name) => {
                    if name.as_str().is_empty() {
                        let device = self.device();
                        self.phase = Phase::Interface;
                        return Ok(Task::ReadInterface { device });
                    }
                    self.phase = Phase::Over;
                    Ok(Task::Connected { interface: name })
                },
                _ => Err(NetworkError::Unexpected),
            },
            Phase::Interface => match reply {
                Reply::Text(name) => {
                    self.phase = Phase::Over;
                    Ok(Task::Connected { interface: name })
                },
                _ => Err(NetworkError::Unexpected),
            },
            Phase::Pausing => match reply {
                Reply::Done => {
                    network::cancelled(stop)?;
                    self.phase = Phase::State;
                    Ok(Task::ReadState)
                },
                _ => Err(NetworkError::Unexpected),
            },
            Phase::Over => Err(NetworkError::Unexpected),
        }
    }
}

// ---------------------------------------------------------------------------
// Laws
// ---------------------------------------------------------------------------

/// A connection counts as up only where the address that the firewall permits was seen: no
/// other answer leads to the name of the interface.
pub proof fn law_connections_have_the_local_address(
    s: ActivationModel,
    reply: Reply,
    stop: bool,
    now: u64,
)
    ensures
        advanced(s, reply, stop, now).result is Ok && advanced(
            s,
            reply,
            stop,
            now,
        ).result->Ok_0 is Connected ==> s.phase == Phase::IpInterface || s.phase
            == Phase::Interface,
        advanced(s, reply, stop, now).state.phase == Phase::Interface && s.phase != Phase::Interface
            ==> s.phase == Phase::IpInterface,
        advanced(s, reply, stop, now).state.phase == Phase::IpInterface && s.phase
            != Phase::IpInterface ==> reply is Addresses && network::has_local(
            reply->Addresses_0@,
        ),
{
}

/// A round that finds nothing ends the wait where the connection failed or its time is over.
pub proof fn law_waits_end_in_time(s: ActivationModel, reply: Reply, stop: bool, now: u64)
    requires
        advanced(s, reply, stop, now).result is Ok,
        advanced(s, reply, stop, now).result->Ok_0 is Pause,
    ensures
        now < s.deadline,
        advanced(s, reply, stop, now).state.state != 3,
        advanced(s, reply, stop, now).state.state != 4,
{
}

/// Nothing is available while a connection of Wi-Fi Direct is up: every connection was looked
/// at.
pub proof fn law_every_connection_is_looked_at(s: AvailabilityModel, answer: Answer)
    requires
        is_asking(s),
        inquired(s, answer).result is Ok,
        inquired(s, answer).result->Ok_0 is Available,
    ensures
        inquired(s, answer).state.at == inquired(s, answer).state.paths.len(),
        answer matches Answer::Connection { kind, state } ==> !(kind@ == "wifi-p2p"@ && state != 4),
{
}

/// What the first `n` answers lead to, from the first question on.
pub open spec fn after_answers(answers: Seq<Answer>, n: int) -> Inquiry
    decreases n,
{
    if n <= 1 {
        inquired(
            AvailabilityModel { asked: Asked::Device, paths: Seq::empty(), at: 0 },
            answers[0],
        )
    } else {
        inquired(after_answers(answers, n - 1).state, answers[n - 1])
    }
}

/// A device without a connection is available exactly where no connection that is up is one of
/// Wi-Fi Direct, unless that one is deactivated: every one of them is asked for, in turn, and the
/// first that is in the way is named.
pub proof fn law_availability(answers: Seq<Answer>, path: String, paths: Vec<String>, k: int)
    requires
        0 <= k <= paths@.len(),
        answers.len() > 2 + k,
        answers[0] == Answer::Active(path),
        answers[1] == Answer::Paths(paths),
        forall|i: int|
            0 <= i < k ==> (#[trigger] answers[2 + i]) is Connection && !(
            answers[2 + i]->Connection_kind@ == "wifi-p2p"@ && answers[2 + i]->Connection_state != 4),
        k < paths@.len() ==> answers[2 + k] is Connection,
    ensures
        path@ != "/"@ ==> after_answers(answers, 1).result == Err::<
            QuestionModel,
            NetworkError<Seq<char>>,
        >(NetworkError::DeviceBusy(path@)),
        path@ == "/"@ ==> {
            &&& after_answers(answers, 1).result == Ok::<QuestionModel, NetworkError<Seq<char>>>(
                QuestionModel::Connections,
            )
            &&& k < paths@.len() ==> after_answers(answers, 2 + k).result == Ok::<
                QuestionModel,
                NetworkError<Seq<char>>,
            >(QuestionModel::Connection(paths@[k]@))
            &&& k == paths@.len() ==> after_answers(answers, 2 + k).result == Ok::<
                QuestionModel,
                NetworkError<Seq<char>>,
            >(QuestionModel::Available)
            &&& k < paths@.len() && answers[2 + k]->Connection_kind@ == "wifi-p2p"@
                && answers[2 + k]->Connection_state != 4 ==> after_answers(answers, 3 + k).result
                == Err::<QuestionModel, NetworkError<Seq<char>>>(
                NetworkError::ConnectionBusy(paths@[k]@),
            )
        },
{
    if path@ == "/"@ {
        lemma_asked(answers, path, paths, k);
    }
}

proof fn lemma_asked(answers: Seq<Answer>, path: String, paths: Vec<String>, k: int)
    requires
        path@ == "/"@,
        0 <= k <= paths@.len(),
        answers.len() > 2 + k,
        answers[0] == Answer::Active(path),
        answers[1] == Answer::Paths(paths),
        forall|i: int|
            0 <= i < k ==> (#[trigger] answers[2 + i]) is Connection && !(
            answers[2 + i]->Connection_kind@ == "wifi-p2p"@ && answers[2 + i]->Connection_state != 4),
    ensures
        ({
            let inquiry = after_answers(answers, 2 + k);
            &&& inquiry.state.paths == network::text_views(paths@)
            &&& inquiry.state.at == k
            &&& k < paths@.len() ==> inquiry.state.asked == Asked::Connection && inquiry.result
                == Ok::<QuestionModel, NetworkError<Seq<char>>>(
                QuestionModel::Connection(paths@[k]@),
            )
            &&& k == paths@.len() ==> inquiry.result == Ok::<QuestionModel, NetworkError<Seq<char>>>(
                QuestionModel::Available,
            )
        }),
    decreases k,
{
    if k == 0 {
        assert(after_answers(answers, 1).state.asked == Asked::Connections);
        assert(after_answers(answers, 2) == inquired(after_answers(answers, 1).state, answers[1]));
    } else {
        lemma_asked(answers, path, paths, k - 1);
        assert(answers[2 + (k - 1)] is Connection);
        assert(after_answers(answers, 2 + k) == inquired(
            after_answers(answers, 1 + k).state,
            answers[1 + k],
        ));
    }
}

/// A connection that is up is looked at device by device: one without a configuration or without
/// addresses leads to the next one, and behind the last the round is over.
pub proof fn law_every_device_is_looked_at(
    s: ActivationModel,
    config: String,
    none: Vec<Option<String>>,
    stop: bool,
    now: u64,
)
    requires
        in_order(s),
        s.phase == Phase::Config,
        s.state == 2,
        none@.len() == 0,
    ensures
        ({
            let named = advanced(s, Reply::Text(config), stop, now);
            let last = if config@ == "/"@ {
                named
            } else {
                advanced(named.state, Reply::Addresses(none), stop, now)
            };
            &&& config@ != "/"@ ==> named.result == Ok::<TaskModel, NetworkError<Seq<char>>>(
                TaskModel::ReadAddresses { config: config@ },
            )
            &&& s.at + 1 < s.devices.len() ==> last.result == Ok::<
                TaskModel,
                NetworkError<Seq<char>>,
            >(TaskModel::ReadConfig { device: s.devices[s.at + 1] })
            &&& s.at + 1 == s.devices.len() && now < s.deadline ==> last.result == Ok::<
                TaskModel,
                NetworkError<Seq<char>>,
            >(TaskModel::Pause)
            &&& s.at + 1 == s.devices.len() && now >= s.deadline ==> last.result == Err::<
                TaskModel,
                NetworkError<Seq<char>>,
            >(NetworkError::ActivationTimeout)
        }),
{
}

/// A round starts with the state of the connection: in state 2 its devices are listed and the
/// first is looked at, in states 3 and 4 it has failed, and otherwise it is waited for while there
/// is time.
pub proof fn law_rounds_start_with_the_state(
    s: ActivationModel,
    state: u32,
    devices: Vec<String>,
    stop: bool,
    now: u64,
)
    requires
        s.phase == Phase::State,
    ensures
        ({
            let first = advanced(s, Reply::State(state), stop, now);
            let second = advanced(first.state, Reply::Paths(devices), stop, now);
            &&& state == 2 ==> first.result == Ok::<TaskModel, NetworkError<Seq<char>>>(
                TaskModel::ListDevices,
            )
            &&& state == 2 && devices@.len() > 0 ==> second.result == Ok::<
                TaskModel,
                NetworkError<Seq<char>>,
            >(TaskModel::ReadConfig { device: devices@[0]@ })
            &&& state == 3 || state == 4 ==> first.result == Err::<
                TaskModel,
                NetworkError<Seq<char>>,
            >(NetworkError::ActivationFailed(state))
            &&& state < 2 || state > 4 ==> first.result == if now < s.deadline {
                Ok::<TaskModel, NetworkError<Seq<char>>>(TaskModel::Pause)
            } else {
                Err(NetworkError::ActivationTimeout)
            }
        }),
{
}

/// A device with the address that the firewall permits, 192.168.49.10, wherever it stands among
/// the addresses, is the one of the connection: its interface is asked for, first the one of the
/// addresses, and where that has no name the device's own. Other addresses alone end the wait.
pub proof fn law_the_local_address_is_the_connection(
    s: ActivationModel,
    addresses: Vec<Option<String>>,
    i: int,
    name: String,
    other: String,
    stop: bool,
    now: u64,
)
    requires
        in_order(s),
        s.phase == Phase::Addresses,
        0 <= i < addresses@.len(),
    ensures
        ({
            let first = advanced(s, Reply::Addresses(addresses), stop, now);
            let second = advanced(first.state, Reply::Text(name), stop, now);
            let third = advanced(second.state, Reply::Text(other), stop, now);
            let local = addresses@[i] is Some && addresses@[i]->Some_0@ == "192.168.49.10"@;
            let foreign = forall|k: int|
                0 <= k < addresses@.len() ==> !((#[trigger] addresses@[k]) is Some
                    && addresses@[k]->Some_0@ == "192.168.49.10"@);
            &&& local ==> first.result == Ok::<TaskModel, NetworkError<Seq<char>>>(
                TaskModel::ReadIpInterface { device: s.devices[s.at] },
            )
            &&& local && name@.len() > 0 ==> second.result == Ok::<
                TaskModel,
                NetworkError<Seq<char>>,
            >(TaskModel::Connected { interface: name@ })
            &&& local && name@.len() == 0 ==> second.result == Ok::<
                TaskModel,
                NetworkError<Seq<char>>,
            >(TaskModel::ReadInterface { device: s.devices[s.at] }) && third.result == Ok::<
                TaskModel,
                NetworkError<Seq<char>>,
            >(TaskModel::Connected { interface: other@ })
            &&& foreign ==> first.result is Err && first.result->Err_0 is ForeignAddresses
        }),
{
    if addresses@[i] is Some && addresses@[i]->Some_0@ == "192.168.49.10"@ {
        assert(network::has_local(addresses@));
    }
}

/// A pause is followed by another look, unless the user gave up.
pub proof fn law_pauses_can_be_given_up(s: ActivationModel, stop: bool, now: u64)
    requires
        s.phase == Phase::Pausing,
    ensures
        stop ==> advanced(s, Reply::Done, stop, now).result == Err::<
            TaskModel,
            NetworkError<Seq<char>>,
        >(NetworkError::Cancelled),
        !stop ==> advanced(s, Reply::Done, stop, now).result == Ok::<
            TaskModel,
            NetworkError<Seq<char>>,
        >(TaskModel::ReadState),
{
}

} // verus!
