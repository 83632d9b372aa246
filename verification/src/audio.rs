//! The sound output of a session: how it is made, how playback gets to it and how all is put
//! back as it was.
use crate::number;
use vstd::prelude::*;

verus! {

/// The index that PulseAudio gives for nothing.
pub const INVALID_INDEX: u32 = 0xffff_ffff;

/// How long the sound server has for one operation, in milliseconds.
pub const OPERATION_MS: u64 = 5000;

/// Why there is no sound.
#[derive(Clone, Copy, Debug, PartialEq, Eq, Structural)]
pub enum AudioError {
    /// The server did not take the connection.
    ConnectionFailed,
    /// An operation took too long.
    Timeout,
    /// The server made no output.
    NoOutput,
    /// The server did not list what plays.
    NotListed,
    /// The server did not take the output as its default.
    NotSelected,
    /// A reply to another task.
    Unexpected,
}

impl AudioError {
    /// The message shown to the user.
    pub fn text(self) -> (r: &'static str)
        ensures
            r@ == self.message(),
    {
        match self {
            AudioError::ConnectionFailed => "Audio server connection failed",
            AudioError::Timeout => "Audio server operation timed out",
            AudioError::NoOutput => "Cannot create LG C9 audio output",
            AudioError::NotListed => "Cannot enumerate playback streams",
            AudioError::NotSelected => "Cannot select LG audio output",
            AudioError::Unexpected => "Reply to another audio task",
        }
    }

    /// The text of each error.
    pub open spec fn message(self) -> Seq<char> {
        match self {
            AudioError::ConnectionFailed => "Audio server connection failed"@,
            AudioError::Timeout => "Audio server operation timed out"@,
            AudioError::NoOutput => "Cannot create LG C9 audio output"@,
            AudioError::NotListed => "Cannot enumerate playback streams"@,
            AudioError::NotSelected => "Cannot select LG audio output"@,
            AudioError::Unexpected => "Reply to another audio task"@,
        }
    }
}

/// How the connection to the server stands.
#[derive(Clone, Copy, Debug, PartialEq, Eq, Structural)]
pub enum Connection {
    Ready,
    Failed,
    Terminated,
    /// On its way.
    Pending,
}

/// Whether the connection is ready; one that ended is an error.
pub fn check_connection(connection: Connection) -> (r: Result<bool, AudioError>)
    ensures
        r == match connection {
            Connection::Ready => Ok::<bool, AudioError>(true),
            Connection::Pending => Ok(false),
            _ => Err(AudioError::ConnectionFailed),
        },
{
    match connection {
        Connection::Ready => Ok(true),
        Connection::Pending => Ok(false),
        Connection::Failed => Err(AudioError::ConnectionFailed),
        Connection::Terminated => Err(AudioError::ConnectionFailed),
    }
}

/// Whether there is time left for an operation that has taken so long.
pub fn check_elapsed(elapsed_ms: u64) -> (r: Result<(), AudioError>)
    ensures
        r == if elapsed_ms < OPERATION_MS {
            Ok::<(), AudioError>(())
        } else {
            Err(AudioError::Timeout)
        },
{
    if elapsed_ms < OPERATION_MS {
        Ok(())
    } else {
        Err(AudioError::Timeout)
    }
}

/// The name of a process's output.
pub open spec fn sink_of(process: int) -> Seq<char> {
    "remote_screen_"@ + number::decimal(process)
}

/// What the module that makes the output is given.
pub open spec fn arguments_of(sink: Seq<char>) -> Seq<char> {
    "sink_name="@ + sink + " rate=48000 channels=2 sink_properties=device.description=LG_C9"@
}

/// Which task is out.
#[derive(Clone, Copy, Debug, PartialEq, Eq, Structural)]
pub enum Phase {
    Connecting,
    Server,
    Loading,
    Idle,
    Listing,
    Selecting,
    Moving,
}

/// What is to be done next.
#[derive(Debug, PartialEq, Eq)]
pub enum Task {
    /// Connect to the server.
    Connect,
    /// Ask for the server's default output.
    ReadServer,
    /// Load the module that makes an output, with these arguments.
    Load { arguments: String },
    /// The output is there.
    Opened,
    /// Ask which streams play, and where to.
    List,
    /// Make an output the default.
    Select { sink: String },
    /// Move a stream to an output.
    Move { index: u32, sink: String },
    /// Everything that plays goes to the output.
    Routed,
}

/// What is to be done next, in a model.
pub ghost enum TaskModel {
    Connect,
    ReadServer,
    Load { arguments: Seq<char> },
    Opened,
    List,
    Select { sink: Seq<char> },
    Move { index: u32, sink: Seq<char> },
    Routed,
}

impl View for Task {
    type V = TaskModel;

    open spec fn view(&self) -> TaskModel {
        match self {
            Task::Connect => TaskModel::Connect,
            Task::ReadServer => TaskModel::ReadServer,
            Task::Load { arguments } => TaskModel::Load { arguments: arguments@ },
            Task::Opened => TaskModel::Opened,
            Task::List => TaskModel::List,
            Task::Select { sink } => TaskModel::Select { sink: sink@ },
            Task::Move { index, sink } => TaskModel::Move { index: *index, sink: sink@ },
            Task::Routed => TaskModel::Routed,
        }
    }
}

/// What came of a task.
#[derive(Debug)]
pub enum Reply {
    Connected,
    /// The server's default output, where it has one.
    Server(Option<String>),
    /// The index of the module.
    Index(u32),
    /// The streams that play, each with the output to which it plays; none where the server
    /// failed to list them.
    Inputs(Option<Vec<(u32, u32)>>),
    /// Whether it was done.
    Answer(bool),
}

/// Something that puts a thing back as it was.
#[derive(Debug, PartialEq, Eq)]
pub enum Undo {
    /// Move a stream back.
    MoveBack { index: u32, sink: u32 },
    /// Make the output from before the default again.
    Select(String),
    /// Remove the module, and the output with it.
    Unload(u32),
    Disconnect,
}

/// Something that puts a thing back as it was, in a model.
pub ghost enum UndoModel {
    MoveBack { index: u32, sink: u32 },
    Select(Seq<char>),
    Unload(u32),
    Disconnect,
}

impl Undo {
    /// The deed in a model.
    pub open spec fn view(self) -> UndoModel {
        match self {
            Undo::MoveBack { index, sink } => UndoModel::MoveBack { index, sink },
            Undo::Select(s) => UndoModel::Select(s@),
            Undo::Unload(n) => UndoModel::Unload(n),
            Undo::Disconnect => UndoModel::Disconnect,
        }
    }
}

/// Deeds in a model.
pub open spec fn undo_views(v: Seq<Undo>) -> Seq<UndoModel> {
    Seq::new(v.len(), |i: int| v[i].view())
}

/// The sound output of a session.
#[derive(Debug)]
pub struct Audio {
    sink: String,
    phase: Phase,
    module: Option<u32>,
    previous_default: Option<String>,
    moved: Vec<(u32, u32)>,
    inputs: Vec<(u32, u32)>,
    at: usize,
}

/// The sound output of a session, in a model.
pub ghost struct AudioModel {
    pub sink: Seq<char>,
    pub phase: Phase,
    pub module: Option<u32>,
    pub previous_default: Option<Seq<char>>,
    /// The streams that were moved, each with the output to which it played.
    pub moved: Seq<(u32, u32)>,
    /// The streams that play, and the one that is moved.
    pub inputs: Seq<(u32, u32)>,
    pub at: int,
}

impl View for Audio {
    type V = AudioModel;

    closed spec fn view(&self) -> AudioModel {
        AudioModel {
            sink: self.sink@,
            phase: self.phase,
            module: self.module,
            previous_default: match self.previous_default {
                Some(s) => Some(s@),
                None => None,
            },
            moved: self.moved@,
            inputs: self.inputs@,
            at: self.at as int,
        }
    }
}

/// What a reply leads to.
pub ghost struct Step {
    pub state: AudioModel,
    pub result: Result<TaskModel, AudioError>,
}

/// A step that goes on.
pub open spec fn goes(s: AudioModel, phase: Phase, task: TaskModel) -> Step {
    Step { state: AudioModel { phase, ..s }, result: Ok(task) }
}

/// A step that ends the way.
pub open spec fn fails(s: AudioModel, error: AudioError) -> Step {
    Step { state: s, result: Err(error) }
}

/// The next stream to move, or the end.
pub open spec fn next_input(s: AudioModel) -> Step {
    if s.at < s.inputs.len() {
        goes(s, Phase::Moving, TaskModel::Move { index: s.inputs[s.at].0, sink: s.sink })
    } else {
        goes(s, Phase::Idle, TaskModel::Routed)
    }
}

/// What a reply leads to. A stream that cannot be moved stays where it is.
pub open spec fn advanced(s: AudioModel, reply: Reply) -> Step {
    match (s.phase, reply) {
        (Phase::Connecting, Reply::Connected) => goes(s, Phase::Server, TaskModel::ReadServer),
        (Phase::Server, Reply::Server(name)) => goes(
            AudioModel {
                previous_default: match name {
                    Some(n) => Some(n@),
                    None => None,
                },
                ..s
            },
            Phase::Loading,
            TaskModel::Load { arguments: arguments_of(s.sink) },
        ),
        (Phase::Loading, Reply::Index(index)) => if index == INVALID_INDEX {
            fails(s, AudioError::NoOutput)
        } else {
            goes(AudioModel { module: Some(index), ..s }, Phase::Idle, TaskModel::Opened)
        },
        (Phase::Listing, Reply::Inputs(inputs)) => match inputs {
            None => fails(s, AudioError::NotListed),
            Some(v) => goes(
                AudioModel { inputs: v@, at: 0, ..s },
                Phase::Selecting,
                TaskModel::Select { sink: s.sink },
            ),
        },
        (Phase::Selecting, Reply::Answer(done)) => if done {
            next_input(s)
        } else {
            fails(s, AudioError::NotSelected)
        },
        (Phase::Moving, Reply::Answer(done)) => next_input(
            AudioModel {
                moved: if done {
                    s.moved.push(s.inputs[s.at])
                } else {
                    s.moved
                },
                at: s.at + 1,
                ..s
            },
        ),
        _ => fails(s, AudioError::Unexpected),
    }
}

/// What holds of every output: the stream that is moved is one of those that play.
pub open spec fn in_order(s: AudioModel) -> bool {
    &&& 0 <= s.at <= s.inputs.len()
    &&& s.phase == Phase::Moving ==> s.at < s.inputs.len()
}

/// The deeds that put everything back: the streams, the default and then the module. A
/// connection that is gone is only closed.
pub open spec fn undone(s: AudioModel, ready: bool) -> Seq<UndoModel> {
    if ready {
        Seq::new(
            s.moved.len(),
            |i: int| UndoModel::MoveBack { index: s.moved[i].0, sink: s.moved[i].1 },
        ) + match s.previous_default {
            Some(name) => seq![UndoModel::Select(name)],
            None => seq![],
        } + match s.module {
            Some(index) => seq![UndoModel::Unload(index)],
            None => seq![],
        } + seq![UndoModel::Disconnect]
    } else {
        seq![UndoModel::Disconnect]
    }
}

impl Audio {
    /// The output of a process, and the first task.
    pub fn open(process: u32) -> (r: (Audio, Task))
        ensures
            r.0@ == (AudioModel {
                sink: sink_of(process as int),
                phase: Phase::Connecting,
                module: None,
                previous_default: None,
                moved: Seq::empty(),
                inputs: Seq::empty(),
                at: 0,
            }),
            r.1@ == TaskModel::Connect,
            in_order(r.0@),
    {
        let mut sink = "remote_screen_".to_owned();
        sink.append(number::decimal_text(process as u64).as_str());
        let audio = Audio {
            sink,
            phase: Phase::Connecting,
            module: None,
            previous_default: None,
            moved: Vec::new(),
            inputs: Vec::new(),
            at: 0,
        };
        proof {
            assert(audio.moved@ =~= Seq::<(u32, u32)>::empty());
            assert(audio.inputs@ =~= Seq::<(u32, u32)>::empty());
        }
        (audio, Task::Connect)
    }

    /// The name of the output.
    pub fn sink(&self) -> (r: &str)
        ensures
            r@ == self@.sink,
    {
        self.sink.as_str()
    }

    /// Starts to send what plays to the output: the first task.
    pub fn route(&mut self) -> (r: Task)
        requires
            in_order(old(self)@),
        ensures
            final(self)@ == (AudioModel { phase: Phase::Listing, ..old(self)@ }),
            in_order(final(self)@),
            r@ == TaskModel::List,
    {
        self.phase = Phase::Listing;
        Task::List
    }

    fn go_next_input(&mut self) -> (r: Result<Task, AudioError>)
        ensures
            final(self)@ == next_input(old(self)@).state,
            r is Ok,
            Ok::<TaskModel, AudioError>(r->Ok_0@) == next_input(old(self)@).result,
    {
        if self.at < self.inputs.len() {
            self.phase = Phase::Moving;
            Ok(Task::Move { index: self.inputs[self.at].0, sink: self.sink.clone() })
        } else {
            self.phase = Phase::Idle;
            Ok(Task::Routed)
        }
    }

    /// What came of the task that is out: the next one, or why the way ends.
    pub fn advance(&mut self, reply: Reply) -> (r: Result<Task, AudioError>)
        requires
            in_order(old(self)@),
        ensures
            final(self)@ == advanced(old(self)@, reply).state,
            in_order(final(self)@),
            match advanced(old(self)@, reply).result {
                Ok(task) => r is Ok && r->Ok_0@ == task,
                Err(e) => r is Err && r->Err_0 == e,
            },
    {
        match self.phase {
            Phase::Connecting => match reply {
                Reply::Connected => {
                    self.phase = Phase::Server;
                    Ok(Task::ReadServer)
                },
                _ => Err(AudioError::Unexpected),
            },
            Phase::Server => match reply {
                Reply::Server(name) => {
                    self.previous_default = name;
                    let mut arguments = "sink_name=".to_owned();
                    arguments.append(self.sink.as_str());
                    arguments.append(
                        " rate=48000 channels=2 sink_properties=device.description=LG_C9",
                    );
                    self.phase = Phase::Loading;
                    Ok(Task::Load { arguments })
                },
                _ => Err(AudioError::Unexpected),
            },
            Phase::Loading => match reply {
                Reply::Index(index) => {
                    if index == INVALID_INDEX {
                        return Err(AudioError::NoOutput);
                    }
                    self.module = Some(index);
                    self.phase = Phase::Idle;
                    Ok(Task::Opened)
                },
                _ => Err(AudioError::Unexpected),
            },
            Phase::Idle => Err(AudioError::Unexpected),
            Phase::Listing => match reply {
                Reply::Inputs(inputs) => match inputs {
                    None => Err(AudioError::NotListed),
                    Some(v) => {
                        self.inputs = v;
                        self.at = 0;
                        self.phase = Phase::Selecting;
                        Ok(Task::Select { sink: self.sink.clone() })
                    },
                },
                _ => Err(AudioError::Unexpected),
            },
            Phase::Selecting => match reply {
                Reply::Answer(done) => {
                    if !done {
                        return Err(AudioError::NotSelected);
                    }
                    self.go_next_input()
                },
                _ => Err(AudioError::Unexpected),
            },
            Phase::Moving => match reply {
                Reply::Answer(done) => {
                    if done {
                        self.moved.push(self.inputs[self.at]);
                    }
                    assert(self.inputs.len() == self.inputs@.len());
                    self.at = self.at + 1;
                    self.go_next_input()
                },
                _ => Err(AudioError::Unexpected),
            },
        }
    }

    /// The deeds that put everything back, each handed out once.
    pub fn restore(&mut self, ready: bool) -> (r: Vec<Undo>)
        ensures
            undo_views(r@) == undone(old(self)@, ready),
            final(self)@ == if ready {
                AudioModel {
                    moved: Seq::empty(),
                    previous_default: None,
                    module: None,
                    ..old(self)@
                }
            } else {
                old(self)@
            },
    {
        let mut v: Vec<Undo> = Vec::new();
        if ready {
            let mut i: usize = 0;
            while i < self.moved.len()
                invariant
                    i <= self.moved@.len(),
                    *self == *old(self),
                    v@.len() == i,
                    forall|k: int|
                        0 <= k < i ==> (#[trigger] v@[k]).view() == (UndoModel::MoveBack {
                            index: self.moved@[k].0,
                            sink: self.moved@[k].1,
                        }),
                decreases self.moved@.len() - i,
            {
                v.push(Undo::MoveBack { index: self.moved[i].0, sink: self.moved[i].1 });
                i = i + 1;
            }
            match &self.previous_default {
                Some(name) => v.push(Undo::Select(name.clone())),
                None => {},
            }
            match self.module {
                Some(index) => v.push(Undo::Unload(index)),
                None => {},
            }
            self.moved = Vec::new();
            self.previous_default = None;
            self.module = None;
            proof {
                assert(self.moved@ =~= Seq::<(u32, u32)>::empty());
            }
        }
        v.push(Undo::Disconnect);
        proof {
            assert(undo_views(v@) =~= undone(old(self)@, ready));
        }
        v
    }
}

// ---------------------------------------------------------------------------
// Laws
// ---------------------------------------------------------------------------

/// Every step stays in order.
pub proof fn law_steps_stay_in_order(s: AudioModel, reply: Reply)
    requires
        in_order(s),
    ensures
        in_order(advanced(s, reply).state),
{
}

/// Whatever was done is undone: a stream that was moved is moved back to where it played,
/// the default from before is chosen again, and the module goes after both.
pub proof fn law_everything_is_put_back(s: AudioModel)
    ensures
        forall|i: int|
            0 <= i < s.moved.len() ==> #[trigger] undone(s, true)[i] == (UndoModel::MoveBack {
                index: s.moved[i].0,
                sink: s.moved[i].1,
            }),
        s.previous_default is Some ==> undone(s, true)[s.moved.len() as int] == UndoModel::Select(
            s.previous_default->Some_0,
        ),
        s.module is Some ==> undone(s, true)[undone(s, true).len() - 2] == UndoModel::Unload(
            s.module->Some_0,
        ),
        undone(s, true).last() == UndoModel::Disconnect,
{
}

/// No step forgets what has to be undone: moved streams stay listed, and the module stays
/// known.
pub proof fn law_nothing_to_undo_is_forgotten(s: AudioModel, reply: Reply)
    ensures
        s.moved.is_prefix_of(advanced(s, reply).state.moved),
        s.module is Some ==> advanced(s, reply).state.module is Some,
        s.previous_default is Some && s.phase != Phase::Server ==> advanced(
            s,
            reply,
        ).state.previous_default == s.previous_default,
        advanced(s, reply).state.moved.len() > s.moved.len() ==> s.phase == Phase::Moving && advanced(
            s,
            reply,
        ).state.moved.last() == s.inputs[s.at],
{
}

/// What plays is touched only after the output was made: a stream is moved only after the
/// server was asked to list them and the output is the default.
pub proof fn law_streams_move_after_the_default(s: AudioModel, reply: Reply)
    ensures
        advanced(s, reply).result is Ok && advanced(s, reply).result->Ok_0 is Move ==> s.phase
            == Phase::Selecting || s.phase == Phase::Moving,
        advanced(s, reply).state.phase == Phase::Selecting && s.phase != Phase::Selecting ==> s.phase
            == Phase::Listing,
{
}

/// The output is opened in one order: the server is asked for its default, which is remembered,
/// and then for the module that makes the output, which is remembered as well.
pub proof fn law_the_output_is_opened(s: AudioModel, name: Option<String>, index: u32)
    requires
        s.phase == Phase::Connecting,
    ensures
        ({
            let asked = advanced(s, Reply::Connected);
            let known = advanced(asked.state, Reply::Server(name));
            let made = advanced(known.state, Reply::Index(index));
            &&& asked.result == Ok::<TaskModel, AudioError>(TaskModel::ReadServer)
            &&& known.result == Ok::<TaskModel, AudioError>(
                TaskModel::Load {
                    arguments: "sink_name="@ + s.sink
                        + " rate=48000 channels=2 sink_properties=device.description=LG_C9"@,
                },
            )
            &&& name matches Some(n) ==> made.state.previous_default == Some(n@)
            &&& name is None ==> made.state.previous_default is None
            &&& index != 0xffff_ffff ==> made.result == Ok::<TaskModel, AudioError>(
                TaskModel::Opened,
            ) && made.state.module == Some(index)
            &&& index == 0xffff_ffff ==> made.result == Err::<TaskModel, AudioError>(
                AudioError::NoOutput,
            ) && made.state.module == s.module
        }),
{
}

/// What plays is listed, the output becomes the default, and then every stream is moved to it, in
/// turn. One that was moved is remembered with the output on which it played, and one that cannot
/// be moved is passed over.
pub proof fn law_every_stream_is_moved(s: AudioModel, v: Vec<(u32, u32)>, moved: bool)
    requires
        in_order(s),
        s.phase == Phase::Listing || s.phase == Phase::Moving,
    ensures
        ({
            let listed = advanced(s, Reply::Inputs(Some(v)));
            let selected = advanced(listed.state, Reply::Answer(true));
            let next = advanced(s, Reply::Answer(moved));
            &&& s.phase == Phase::Listing ==> {
                &&& listed.result == Ok::<TaskModel, AudioError>(TaskModel::Select { sink: s.sink })
                &&& advanced(listed.state, Reply::Answer(false)).result == Err::<
                    TaskModel,
                    AudioError,
                >(AudioError::NotSelected)
                &&& v@.len() > 0 ==> selected.result == Ok::<TaskModel, AudioError>(
                    TaskModel::Move { index: v@[0].0, sink: s.sink },
                )
                &&& v@.len() == 0 ==> selected.result == Ok::<TaskModel, AudioError>(
                    TaskModel::Routed,
                )
                &&& advanced(s, Reply::Inputs(None)).result == Err::<TaskModel, AudioError>(
                    AudioError::NotListed,
                )
            }
            &&& s.phase == Phase::Moving ==> {
                &&& next.state.moved == if moved {
                    s.moved.push(s.inputs[s.at])
                } else {
                    s.moved
                }
                &&& s.at + 1 < s.inputs.len() ==> next.result == Ok::<TaskModel, AudioError>(
                    TaskModel::Move { index: s.inputs[s.at + 1].0, sink: s.sink },
                )
                &&& s.at + 1 == s.inputs.len() ==> next.result == Ok::<TaskModel, AudioError>(
                    TaskModel::Routed,
                )
            }
        }),
{
}

/// Nothing is put back over a connection that is gone, and nothing but what was changed over one
/// that is there.
pub proof fn law_only_what_was_changed_is_put_back(s: AudioModel)
    ensures
        undone(s, false) == seq![UndoModel::Disconnect],
        undone(s, true).len() == s.moved.len() + (if s.previous_default is Some {
            1int
        } else {
            0
        }) + (if s.module is Some {
            1int
        } else {
            0
        }) + 1,
{
}

} // verus!
