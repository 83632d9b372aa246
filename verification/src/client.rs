//! The client of the pairing service: from the request to a connection that is up.
use crate::pairing;
use crate::pairing::{Event, LineReader, PairingError, Progress};
use vstd::prelude::*;

verus! {

/// What is to be done next. Where it fails, the way ends with that failure.
#[derive(Debug, PartialEq, Eq)]
pub enum Task {
    /// Connect to the service.
    Connect,
    /// Send a request.
    Send(Vec<u8>),
    /// Wait a moment for a byte.
    Read,
    /// Read the event of a line.
    Parse(Vec<u8>),
    /// Tell the user.
    Show(String),
    /// The connection is up.
    Ready { interface: String, reused: bool },
}

/// What is to be done next, in a model.
pub ghost enum TaskModel {
    Connect,
    Send(Seq<u8>),
    Read,
    Parse(Seq<u8>),
    Show(Seq<char>),
    Ready { interface: Seq<char>, reused: bool },
}

impl View for Task {
    type V = TaskModel;

    open spec fn view(&self) -> TaskModel {
        match self {
            Task::Connect => TaskModel::Connect,
            Task::Send(bytes) => TaskModel::Send(bytes@),
            Task::Read => TaskModel::Read,
            Task::Parse(line) => TaskModel::Parse(line@),
            Task::Show(s) => TaskModel::Show(s@),
            Task::Ready { interface, reused } => TaskModel::Ready {
                interface: interface@,
                reused: *reused,
            },
        }
    }
}

/// What came of a task.
#[derive(Debug)]
pub enum Reply {
    Done,
    Byte(u8),
    /// No byte yet.
    Nothing,
    /// The service closed the connection.
    Closed,
    /// The event of a line, where it is one.
    Event(Result<Event, String>),
}

/// Which task is out.
#[derive(Clone, Copy, Debug, PartialEq, Eq, Structural)]
pub enum Phase {
    Connecting,
    Sending,
    Reading,
    Parsing,
    Showing,
    Ready,
}

/// How far the client is.
#[derive(Debug)]
pub struct Client {
    peer: String,
    timeout_secs: u64,
    allow_pairing: bool,
    deadline: u64,
    phase: Phase,
    reader: LineReader,
}

/// How far the client is, in a model.
pub ghost struct ClientModel {
    /// The address of the display.
    pub peer: Seq<char>,
    /// How long the service may take.
    pub timeout_secs: u64,
    pub allow_pairing: bool,
    /// When to give up, in milliseconds.
    pub deadline: int,
    pub phase: Phase,
    /// The line that is read, as far as it has come.
    pub line: Seq<u8>,
}

impl View for Client {
    type V = ClientModel;

    closed spec fn view(&self) -> ClientModel {
        ClientModel {
            peer: self.peer@,
            timeout_secs: self.timeout_secs,
            allow_pairing: self.allow_pairing,
            deadline: self.deadline as int,
            phase: self.phase,
            line: self.reader.line@,
        }
    }
}

/// What a reply leads to.
pub ghost struct Step {
    pub state: ClientModel,
    pub result: Result<TaskModel, PairingError<Seq<char>>>,
}

/// A step that goes on.
pub open spec fn goes(s: ClientModel, phase: Phase, task: TaskModel) -> Step {
    Step { state: ClientModel { phase, ..s }, result: Ok(task) }
}

/// A step that ends the way.
pub open spec fn fails(s: ClientModel, error: PairingError<Seq<char>>) -> Step {
    Step { state: s, result: Err(error) }
}

/// The wait for the next byte: until the user gives up or the time is over.
pub open spec fn waits(s: ClientModel, stop: bool, now: int) -> Step {
    if stop {
        fails(s, PairingError::Cancelled)
    } else if now >= s.deadline {
        fails(s, PairingError::TimedOut)
    } else {
        goes(s, Phase::Reading, TaskModel::Read)
    }
}

/// What one more byte leads to.
pub open spec fn with_byte(s: ClientModel, byte: u8, stop: bool, now: int) -> Step {
    match pairing::line_step(s.line, byte) {
        Err(e) => fails(s, e),
        Ok((line, None)) => waits(ClientModel { line, ..s }, stop, now),
        Ok((line, Some(whole))) => goes(
            ClientModel { line, ..s },
            Phase::Parsing,
            TaskModel::Parse(whole),
        ),
    }
}

/// What an event leads to.
pub open spec fn with_event(
    s: ClientModel,
    event: Result<Event, String>,
    stop: bool,
    now: int,
) -> Step {
    match event {
        Err(error) => fails(s, PairingError::InvalidResponse(error@)),
        Ok(e) => match pairing::meaning(e) {
            Err(error) => fails(s, error),
            Ok(Progress::Status(None)) => waits(s, stop, now),
            Ok(Progress::Status(Some(message))) => goes(
                s,
                Phase::Showing,
                TaskModel::Show(message),
            ),
            Ok(Progress::Ready { interface, reused }) => goes(
                s,
                Phase::Ready,
                TaskModel::Ready { interface, reused },
            ),
        },
    }
}

/// What a reply leads to.
pub open spec fn advanced(s: ClientModel, reply: Reply, stop: bool, now: int) -> Step {
    match (s.phase, reply) {
        (Phase::Connecting, Reply::Done) => goes(
            s,
            Phase::Sending,
            TaskModel::Send(pairing::request_bytes(s.peer, s.timeout_secs, s.allow_pairing)),
        ),
        (Phase::Sending, Reply::Done) => waits(s, stop, now),
        (Phase::Reading, Reply::Byte(byte)) => with_byte(s, byte, stop, now),
        (Phase::Reading, Reply::Nothing) => waits(s, stop, now),
        (Phase::Reading, Reply::Closed) => fails(s, PairingError::Disconnected),
        (Phase::Parsing, Reply::Event(event)) => with_event(s, event, stop, now),
        (Phase::Showing, Reply::Done) => waits(s, stop, now),
        _ => fails(s, PairingError::Unexpected),
    }
}

/// Whether a result is the one that is expected.
pub open spec fn fulfils(
    r: Result<Task, PairingError<String>>,
    expected: Result<TaskModel, PairingError<Seq<char>>>,
) -> bool {
    match expected {
        Ok(task) => r is Ok && r->Ok_0@ == task,
        Err(e) => r is Err && r->Err_0.view() == e,
    }
}

impl Client {
    /// A request to connect to a display, and the first task; none where the user has given
    /// up, or where the time limit is beyond the clock. Times are in milliseconds but for the
    /// limit of the service itself.
    pub fn new(
        peer: &str,
        timeout_ms: u64,
        grace_ms: u64,
        allow_pairing: bool,
        stop: bool,
        now: u64,
    ) -> (r: Result<(Client, Task), PairingError<String>>)
        ensures
            if stop {
                r is Err && r->Err_0.view() is Cancelled
            } else if now + timeout_ms + grace_ms > u64::MAX {
                r is Err && r->Err_0.view() is TimeoutTooLarge
            } else {
                &&& r is Ok
                &&& r->Ok_0.0@ == (ClientModel {
                    peer: peer@,
                    timeout_secs: timeout_ms / 1000,
                    allow_pairing,
                    deadline: now + timeout_ms + grace_ms,
                    phase: Phase::Connecting,
                    line: Seq::empty(),
                })
                &&& r->Ok_0.1@ == TaskModel::Connect
            },
    {
        if stop {
            return Err(PairingError::Cancelled);
        }
        let deadline: u64 = pairing::deadline(now, timeout_ms, grace_ms)?;
        let client = Client {
            peer: peer.to_owned(),
            timeout_secs: timeout_ms / 1000,
            allow_pairing,
            deadline,
            phase: Phase::Connecting,
            reader: LineReader::default(),
        };
        Ok((client, Task::Connect))
    }

    fn go_wait(&mut self, stop: bool, now: u64) -> (r: Result<Task, PairingError<String>>)
        ensures
            final(self)@ == waits(old(self)@, stop, now as int).state,
            fulfils(r, waits(old(self)@, stop, now as int).result),
    {
        pairing::check_wait(stop, now, self.deadline)?;
        self.phase = Phase::Reading;
        Ok(Task::Read)
    }

    fn take_byte(&mut self, byte: u8, stop: bool, now: u64) -> (r: Result<
        Task,
        PairingError<String>,
    >)
        ensures
            final(self)@ == with_byte(old(self)@, byte, stop, now as int).state,
            fulfils(r, with_byte(old(self)@, byte, stop, now as int).result),
    {
        match self.reader.push(byte)? {
            None => self.go_wait(stop, now),
            Some(line) => {
                self.phase = Phase::Parsing;
                Ok(Task::Parse(line))
            },
        }
    }

    fn take_event(&mut self, event: Result<Event, String>, stop: bool, now: u64) -> (r: Result<
        Task,
        PairingError<String>,
    >)
        ensures
            final(self)@ == with_event(old(self)@, event, stop, now as int).state,
            fulfils(r, with_event(old(self)@, event, stop, now as int).result),
    {
        let event = match event {
            Err(error) => {
                return Err(PairingError::InvalidResponse(error));
            },
            Ok(event) => event,
        };
        match pairing::handle_event(event)? {
            Progress::Status(None) => self.go_wait(stop, now),
            Progress::Status(Some(message)) => {
                self.phase = Phase::Showing;
                Ok(Task::Show(message))
            },
            Progress::Ready { interface, reused } => {
                self.phase = Phase::Ready;
                Ok(Task::Ready { interface, reused })
            },
        }
    }

    /// What came of the task that is out: the next one, or why the way ends.
    pub fn advance(&mut self, reply: Reply, stop: bool, now: u64) -> (r: Result<
        Task,
        PairingError<String>,
    >)
        ensures
            final(self)@ == advanced(old(self)@, reply, stop, now as int).state,
            fulfils(r, advanced(old(self)@, reply, stop, now as int).result),
    {
        match self.phase {
            Phase::Connecting => match reply {
                Reply::Done => {
                    let request = pairing::connect_request(
                        self.peer.as_str(),
                        self.timeout_secs,
                        self.allow_pairing,
                    )?;
                    self.phase = Phase::Sending;
                    Ok(Task::Send(request))
                },
                _ => Err(PairingError::Unexpected),
            },
            Phase::Sending => match reply {
                Reply::Done => self.go_wait(stop, now),
                _ => Err(PairingError::Unexpected),
            },
            Phase::Reading => match reply {
                Reply::Byte(byte) => self.take_byte(byte, stop, now),
                Reply::Nothing => self.go_wait(stop, now),
                Reply::Closed => Err(PairingError::Disconnected),
                _ => Err(PairingError::Unexpected),
            },
            Phase::Parsing => match reply {
                Reply::Event(event) => self.take_event(event, stop, now),
                _ => Err(PairingError::Unexpected),
            },
            Phase::Showing => match reply {
                Reply::Done => self.go_wait(stop, now),
                _ => Err(PairingError::Unexpected),
            },
            Phase::Ready => Err(PairingError::Unexpected),
        }
    }
}

// ---------------------------------------------------------------------------
// Laws
// ---------------------------------------------------------------------------

/// The request asks for a new pairing only where the client was told to, and never again.
pub proof fn law_requests_keep_the_policy(s: ClientModel, reply: Reply, stop: bool, now: int)
    ensures
        advanced(s, reply, stop, now).state.allow_pairing == s.allow_pairing,
        advanced(s, reply, stop, now).state.peer == s.peer,
        advanced(s, reply, stop, now).result is Ok && advanced(
            s,
            reply,
            stop,
            now,
        ).result->Ok_0 is Send ==> s.phase == Phase::Connecting && advanced(
            s,
            reply,
            stop,
            now,
        ).result->Ok_0->Send_0 == pairing::request_bytes(s.peer, s.timeout_secs, s.allow_pairing),
{
}

/// Nothing is waited for once the user has given up or the time is over.
pub proof fn law_waiting_ends(s: ClientModel, reply: Reply, stop: bool, now: int)
    requires
        stop || now >= s.deadline,
        advanced(s, reply, stop, now).result is Ok,
    ensures
        !(advanced(s, reply, stop, now).result->Ok_0 is Read),
{
}

/// Whatever the service sends, no more than the limit of a line is kept.
pub proof fn law_no_more_than_a_line_is_kept(s: ClientModel, reply: Reply, stop: bool, now: int)
    requires
        s.line.len() <= pairing::MAX_LINE,
    ensures
        advanced(s, reply, stop, now).state.line.len() <= pairing::MAX_LINE,
{
}

/// A connection is up only with an interface of Wi-Fi Direct.
pub proof fn law_ready_has_an_interface(s: ClientModel, reply: Reply, stop: bool, now: int)
    requires
        advanced(s, reply, stop, now).result is Ok,
        advanced(s, reply, stop, now).result->Ok_0 is Ready,
    ensures
        pairing::is_p2p_interface(advanced(s, reply, stop, now).result->Ok_0->Ready_interface),
{
}

/// The request goes out as soon as the service is there, and then its answer is waited for.
pub proof fn law_the_request_comes_first(s: ClientModel, stop: bool, now: int)
    requires
        s.phase == Phase::Connecting,
    ensures
        ({
            let sent = advanced(s, Reply::Done, stop, now);
            let waiting = advanced(sent.state, Reply::Done, stop, now);
            &&& sent.result == Ok::<TaskModel, PairingError<Seq<char>>>(
                TaskModel::Send(pairing::request_bytes(s.peer, s.timeout_secs, s.allow_pairing)),
            )
            &&& stop ==> waiting.result == Err::<TaskModel, PairingError<Seq<char>>>(
                PairingError::Cancelled,
            )
            &&& !stop && now >= s.deadline ==> waiting.result == Err::<
                TaskModel,
                PairingError<Seq<char>>,
            >(PairingError::TimedOut)
            &&& !stop && now < s.deadline ==> waiting.result == Ok::<
                TaskModel,
                PairingError<Seq<char>>,
            >(TaskModel::Read)
        }),
{
}

/// Bytes are read one by one up to the end of the line, which is then taken as an event. Where
/// none comes it is waited on, and a service that is gone ends the way.
pub proof fn law_lines_are_read_to_their_end(s: ClientModel, byte: u8, now: int)
    requires
        s.phase == Phase::Reading,
        now < s.deadline,
        s.line.len() < 16384,
    ensures
        pairing::MAX_LINE == 16384,
        byte != 10 ==> advanced(s, Reply::Byte(byte), false, now).result == Ok::<
            TaskModel,
            PairingError<Seq<char>>,
        >(TaskModel::Read) && advanced(s, Reply::Byte(byte), false, now).state.line == s.line.push(
            byte,
        ),
        byte == 10 ==> advanced(s, Reply::Byte(byte), false, now).result == Ok::<
            TaskModel,
            PairingError<Seq<char>>,
        >(TaskModel::Parse(s.line)) && advanced(s, Reply::Byte(byte), false, now).state.line.len()
            == 0,
        advanced(s, Reply::Nothing, false, now).result == Ok::<TaskModel, PairingError<Seq<char>>>(
            TaskModel::Read,
        ),
        advanced(s, Reply::Closed, false, now).result == Err::<TaskModel, PairingError<Seq<char>>>(
            PairingError::Disconnected,
        ),
{
}

/// An event that has something to say is shown and then the next one is waited for; a connection
/// that is up is the end of the way, and so is an error.
pub proof fn law_events_lead_on(s: ClientModel, event: Event, now: int)
    requires
        s.phase == Phase::Parsing,
        now < s.deadline,
    ensures
        ({
            let step = advanced(s, Reply::Event(Ok(event)), false, now);
            &&& pairing::meaning(event) matches Ok(Progress::Status(Some(message))) ==> step.result
                == Ok::<TaskModel, PairingError<Seq<char>>>(TaskModel::Show(message)) && advanced(
                step.state,
                Reply::Done,
                false,
                now,
            ).result == Ok::<TaskModel, PairingError<Seq<char>>>(TaskModel::Read)
            &&& pairing::meaning(event) matches Ok(Progress::Status(None)) ==> step.result == Ok::<
                TaskModel,
                PairingError<Seq<char>>,
            >(TaskModel::Read)
            &&& pairing::meaning(event) matches Ok(Progress::Ready { interface, reused })
                ==> step.result == Ok::<TaskModel, PairingError<Seq<char>>>(
                TaskModel::Ready { interface, reused },
            )
            &&& pairing::meaning(event) matches Err(e) ==> step.result == Err::<
                TaskModel,
                PairingError<Seq<char>>,
            >(e)
        }),
{
}

} // verus!
