//! The talk with a receiver, turn by turn: first the negotiation, then the session itself.
use crate::rtsp;
use crate::rtsp::Message;
use crate::session;
use crate::session::{Action, Chunk, Negotiated, Session, SessionModel};
use crate::text;
use crate::wfd;
use crate::wfd::{Config, Event, Ip, WfdError};
use vstd::prelude::*;

verus! {

/// What is to be done next.
#[derive(Debug, PartialEq, Eq)]
pub enum Turn {
    /// Do all this, in order. Where something fails, the talk ends with that failure.
    Act(Vec<Action<String>>),
    /// Wait a moment for bytes.
    Read,
    /// The negotiation is over; the session waits to be served.
    Agreed,
    /// The session is over.
    Over,
}

/// What is to be done next, in a model.
pub ghost enum TurnModel {
    Act(Seq<Action<Seq<char>>>),
    Read,
    Agreed,
    Over,
}

impl View for Turn {
    type V = TurnModel;

    open spec fn view(&self) -> TurnModel {
        match self {
            Turn::Act(actions) => TurnModel::Act(session::actions_of(actions@)),
            Turn::Read => TurnModel::Read,
            Turn::Agreed => TurnModel::Agreed,
            Turn::Over => TurnModel::Over,
        }
    }
}

/// What came of a turn.
pub enum Input {
    /// All was done.
    Done,
    Chunk(Chunk),
    /// The session is to be served.
    Serve,
}

/// Which turn is out.
#[derive(Clone, Copy, Debug, PartialEq, Eq, Structural)]
pub enum Phase {
    /// What a message of the negotiation leads to.
    Answering,
    /// Bytes, in the negotiation.
    Asking,
    Agreed,
    /// What is due before a message is awaited.
    Due,
    /// Bytes, in the session.
    Listening,
    /// What a message of the session leads to.
    Replying,
    /// The end of a round.
    Ticking,
    Over,
}

/// The talk with a receiver.
pub struct Dialogue {
    session: Session,
    phase: Phase,
    over: bool,
    deadline: u64,
}

/// The talk with a receiver, in a model.
pub ghost struct DialogueModel {
    pub session: SessionModel,
    pub phase: Phase,
    /// Whether the session is over once the turn that is out is done.
    pub over: bool,
    /// The end of the negotiation, in milliseconds.
    pub deadline: u64,
}

impl View for Dialogue {
    type V = DialogueModel;

    closed spec fn view(&self) -> DialogueModel {
        DialogueModel {
            session: self.session@,
            phase: self.phase,
            over: self.over,
            deadline: self.deadline,
        }
    }
}

// ---------------------------------------------------------------------------
// Model
// ---------------------------------------------------------------------------

/// What an input leads to.
pub ghost struct Step {
    pub state: DialogueModel,
    pub result: Result<TurnModel, WfdError<Seq<char>>>,
}

/// A step that goes on.
pub open spec fn goes(s: DialogueModel, phase: Phase, turn: TurnModel) -> Step {
    Step { state: DialogueModel { phase, ..s }, result: Ok(turn) }
}

/// A step that ends the talk.
pub open spec fn fails(s: DialogueModel, error: WfdError<Seq<char>>) -> Step {
    Step { state: s, result: Err(error) }
}

/// What is sent, without what the media are told.
pub open spec fn sent(actions: Seq<Action<Seq<char>>>) -> Seq<Action<Seq<char>>>
    decreases actions.len(),
{
    if actions.len() == 0 {
        Seq::empty()
    } else {
        let before = sent(actions.drop_last());
        match actions.last() {
            Action::Emit(_) => before,
            _ => before.push(actions.last()),
        }
    }
}

/// A message of the negotiation: it is answered, but the media are told nothing yet.
#[verifier::opaque]
pub open spec fn negotiated_message(s: DialogueModel, m: rtsp::MessageModel) -> Step {
    if s.session.next_cseq >= u32::MAX {
        fails(s, WfdError::TooManyRequests)
    } else {
        let outcome = session::handled(s.session, m);
        let next = DialogueModel { session: outcome.state, ..s };
        match outcome.result {
            Err(e) => fails(next, e),
            Ok((actions, _)) => goes(next, Phase::Answering, TurnModel::Act(sent(actions))),
        }
    }
}

/// The next turn of the negotiation.
pub open spec fn negotiation(s: DialogueModel, stop: bool, now: u64) -> Step {
    let over = s.session.setup_done || (s.session.config.probe_codecs
        && s.session.negotiated.raw_capabilities.len() > 0);
    if over {
        goes(s, Phase::Agreed, TurnModel::Agreed)
    } else if stop {
        fails(s, WfdError::Cancelled)
    } else if now >= s.deadline {
        fails(s, WfdError::NegotiationTimeout)
    } else {
        let next = DialogueModel { session: session::after_message(s.session, now as int), ..s };
        match session::first_message(s.session) {
            Err(e) => fails(next, e),
            Ok(None) => goes(next, Phase::Asking, TurnModel::Read),
            Ok(Some(m)) => negotiated_message(next, m),
        }
    }
}

/// The start of a round: the end that the user wants, a sign of life, or nothing.
pub open spec fn round(s: DialogueModel, stop: bool, now: u64) -> Step {
    if s.session.next_cseq >= u32::MAX {
        fails(s, WfdError::TooManyRequests)
    } else {
        goes(
            DialogueModel {
                session: session::after_due(s.session, stop, now as int),
                over: stop,
                ..s
            },
            Phase::Due,
            TurnModel::Act(session::due_actions(s.session, stop, now as int)),
        )
    }
}

/// A message of the session.
#[verifier::opaque]
pub open spec fn served_message(s: DialogueModel, m: rtsp::MessageModel) -> Step {
    if s.session.next_cseq >= u32::MAX {
        fails(s, WfdError::TooManyRequests)
    } else {
        let outcome = session::handled(s.session, m);
        let next = DialogueModel { session: outcome.state, ..s };
        match outcome.result {
            Err(e) => fails(next, e),
            Ok((actions, over)) => goes(
                DialogueModel { over, ..next },
                Phase::Replying,
                TurnModel::Act(actions),
            ),
        }
    }
}

/// The end of a round: the media are looked after.
pub open spec fn tick(s: DialogueModel) -> Step {
    goes(s, Phase::Ticking, TurnModel::Act(seq![Action::Emit(Event::Tick)]))
}

/// What follows what was due: a message, unless nothing was heard for too long.
pub open spec fn listening(s: DialogueModel, now: u64) -> Step {
    if session::elapsed(s.session.last_received, now as int) >= 45_000 {
        fails(s, WfdError::KeepaliveTimeout)
    } else {
        let next = DialogueModel { session: session::after_message(s.session, now as int), ..s };
        match session::first_message(s.session) {
            Err(e) => fails(next, e),
            Ok(None) => goes(next, Phase::Listening, TurnModel::Read),
            Ok(Some(m)) => served_message(next, m),
        }
    }
}

/// The state with bytes of the receiver.
pub open spec fn fed(s: DialogueModel, bytes: Seq<u8>) -> DialogueModel {
    DialogueModel {
        session: SessionModel { bytes: s.session.bytes + bytes, ..s.session },
        ..s
    }
}

/// What bytes, or their absence, lead to in the negotiation.
pub open spec fn asked(s: DialogueModel, chunk: Chunk, stop: bool, now: u64) -> Step {
    match chunk {
        Chunk::Closed => fails(s, WfdError::Closed),
        Chunk::Nothing => negotiation(s, stop, now),
        Chunk::Bytes(bytes) => {
            let full = fed(s, bytes@);
            let next = DialogueModel {
                session: session::after_message(full.session, now as int),
                ..full
            };
            match session::first_message(full.session) {
                Err(e) => fails(next, e),
                Ok(None) => negotiation(next, stop, now),
                Ok(Some(m)) => negotiated_message(next, m),
            }
        },
    }
}

/// What bytes, or their absence, lead to in the session.
pub open spec fn heard(s: DialogueModel, chunk: Chunk, now: u64) -> Step {
    match chunk {
        Chunk::Closed => fails(s, WfdError::Closed),
        Chunk::Nothing => tick(s),
        Chunk::Bytes(bytes) => {
            let full = fed(s, bytes@);
            let next = DialogueModel {
                session: session::after_message(full.session, now as int),
                ..full
            };
            match session::first_message(full.session) {
                Err(e) => fails(next, e),
                Ok(None) => tick(next),
                Ok(Some(m)) => served_message(next, m),
            }
        },
    }
}

/// What an input leads to. Times are in milliseconds.
pub open spec fn advanced(s: DialogueModel, input: Input, stop: bool, now: u64) -> Step {
    match (s.phase, input) {
        (Phase::Answering, Input::Done) => negotiation(s, stop, now),
        (Phase::Asking, Input::Chunk(chunk)) => asked(s, chunk, stop, now),
        (Phase::Agreed, Input::Serve) => if s.session.negotiated.probe_only {
            goes(s, Phase::Over, TurnModel::Over)
        } else {
            round(s, stop, now)
        },
        (Phase::Due, Input::Done) => if s.over {
            goes(s, Phase::Over, TurnModel::Over)
        } else {
            listening(s, now)
        },
        (Phase::Listening, Input::Chunk(chunk)) => heard(s, chunk, now),
        (Phase::Replying, Input::Done) => if s.over {
            goes(s, Phase::Over, TurnModel::Over)
        } else {
            tick(s)
        },
        (Phase::Ticking, Input::Done) => round(s, stop, now),
        _ => fails(s, WfdError::Unexpected),
    }
}

// ---------------------------------------------------------------------------
// Executed
// ---------------------------------------------------------------------------

/// Whether a result is the one that is expected.
pub open spec fn fulfils(
    r: Result<Turn, WfdError<String>>,
    expected: Result<TurnModel, WfdError<Seq<char>>>,
) -> bool {
    match expected {
        Ok(turn) => r is Ok && r->Ok_0@ == turn,
        Err(e) => r is Err && r->Err_0.view() == e,
    }
}

/// What is sent, without what the media are told.
fn without_events(actions: Vec<Action<String>>) -> (r: Vec<Action<String>>)
    ensures
        session::actions_of(r@) == sent(session::actions_of(actions@)),
{
    let ghost all = session::actions_of(actions@);
    let mut out: Vec<Action<String>> = Vec::new();
    let mut i: usize = 0;
    proof {
        assert(all.take(0) =~= Seq::<Action<Seq<char>>>::empty());
        assert(session::actions_of(out@) =~= Seq::<Action<Seq<char>>>::empty());
    }
    while i < actions.len()
        invariant
            i <= actions@.len(),
            all == session::actions_of(actions@),
            session::actions_of(out@) == sent(all.take(i as int)),
        decreases actions@.len() - i,
    {
        proof {
            assert(all.take(i + 1).drop_last() =~= all.take(i as int));
            assert(all.take(i + 1).last() == actions@[i as int].view());
        }
        let ghost before = out@;
        match &actions[i] {
            Action::Send(text) => {
                out.push(Action::Send(text.clone()));
                proof {
                    assert(session::actions_of(out@) =~= session::actions_of(before).push(
                        actions@[i as int].view(),
                    ));
                }
            },
            Action::SendLast(text) => {
                out.push(Action::SendLast(text.clone()));
                proof {
                    assert(session::actions_of(out@) =~= session::actions_of(before).push(
                        actions@[i as int].view(),
                    ));
                }
            },
            Action::Emit(_) => {},
        }
        i = i + 1;
    }
    proof {
        assert(all.take(i as int) =~= all);
    }
    out
}

impl Dialogue {
    /// The talk with a receiver that has just connected, and its first turn.
    pub fn start(
        config: &Config,
        local: &str,
        peer: Ip,
        process: u32,
        now: u64,
        deadline: u64,
    ) -> (r: (Dialogue, Turn))
        ensures
            r.0@ == (DialogueModel {
                session: session::after_request(
                    session::initial(*config, local@, peer, process, now as int),
                    crate::wfd::Pending::Options,
                ),
                phase: Phase::Answering,
                over: false,
                deadline,
            }),
            r.1@ == TurnModel::Act(
                seq![
                    Action::Send(
                        session::request_text(
                            "OPTIONS"@,
                            "*"@,
                            1,
                            seq![("Require"@, "org.wfa.wfd1.0"@)],
                            Seq::empty(),
                        ),
                    ),
                ],
            ),
    {
        let (session, first) = Session::start(config, local, peer, process, now);
        let mut actions: Vec<Action<String>> = Vec::new();
        actions.push(Action::Send(first));
        proof {
            assert(session::actions_of(actions@) =~= seq![Action::Send(first@)]);
        }
        let dialogue = Dialogue { session, phase: Phase::Answering, over: false, deadline };
        (dialogue, Turn::Act(actions))
    }

    /// What was agreed with the receiver.
    pub fn negotiated(&self) -> (r: &Negotiated)
        ensures
            r@ == self@.session.negotiated,
    {
        self.session.negotiated()
    }

    fn take_negotiated(&mut self, m: &Message) -> (r: Result<Turn, WfdError<String>>)
        ensures
            final(self)@ == negotiated_message(old(self)@, m@).state,
            fulfils(r, negotiated_message(old(self)@, m@).result),
    {
        proof {
            reveal(negotiated_message);
        }
        if !self.session.has_sequence() {
            return Err(WfdError::TooManyRequests);
        }
        let (actions, _) = self.session.handle(m)?;
        self.phase = Phase::Answering;
        Ok(Turn::Act(without_events(actions)))
    }

    fn go_negotiate(&mut self, stop: bool, now: u64) -> (r: Result<Turn, WfdError<String>>)
        ensures
            final(self)@ == negotiation(old(self)@, stop, now).state,
            fulfils(r, negotiation(old(self)@, stop, now).result),
    {
        if !self.session.negotiating(stop, now, self.deadline)? {
            self.phase = Phase::Agreed;
            return Ok(Turn::Agreed);
        }
        match self.session.next_message(now)? {
            None => {
                self.phase = Phase::Asking;
                Ok(Turn::Read)
            },
            Some(m) => self.take_negotiated(&m),
        }
    }

    fn go_round(&mut self, stop: bool, now: u64) -> (r: Result<Turn, WfdError<String>>)
        ensures
            final(self)@ == round(old(self)@, stop, now).state,
            fulfils(r, round(old(self)@, stop, now).result),
    {
        if !self.session.has_sequence() {
            return Err(WfdError::TooManyRequests);
        }
        let (actions, over) = self.session.due(stop, now);
        self.over = over;
        self.phase = Phase::Due;
        Ok(Turn::Act(actions))
    }

    fn take_served(&mut self, m: &Message) -> (r: Result<Turn, WfdError<String>>)
        ensures
            final(self)@ == served_message(old(self)@, m@).state,
            fulfils(r, served_message(old(self)@, m@).result),
    {
        proof {
            reveal(served_message);
        }
        if !self.session.has_sequence() {
            return Err(WfdError::TooManyRequests);
        }
        let (actions, over) = self.session.handle(m)?;
        self.over = over;
        self.phase = Phase::Replying;
        Ok(Turn::Act(actions))
    }

    fn go_tick(&mut self) -> (r: Result<Turn, WfdError<String>>)
        ensures
            final(self)@ == tick(old(self)@).state,
            fulfils(r, tick(old(self)@).result),
    {
        let mut actions: Vec<Action<String>> = Vec::new();
        actions.push(Action::Emit(Event::Tick));
        proof {
            assert(session::actions_of(actions@) =~= seq![Action::<Seq<char>>::Emit(Event::Tick)]);
        }
        self.phase = Phase::Ticking;
        Ok(Turn::Act(actions))
    }

    fn go_listen(&mut self, now: u64) -> (r: Result<Turn, WfdError<String>>)
        ensures
            final(self)@ == listening(old(self)@, now).state,
            fulfils(r, listening(old(self)@, now).result),
    {
        self.session.check_alive(now)?;
        match self.session.next_message(now)? {
            None => {
                self.phase = Phase::Listening;
                Ok(Turn::Read)
            },
            Some(m) => self.take_served(&m),
        }
    }

    fn take_asked(&mut self, chunk: Chunk, stop: bool, now: u64) -> (r: Result<
        Turn,
        WfdError<String>,
    >)
        ensures
            final(self)@ == asked(old(self)@, chunk, stop, now).state,
            fulfils(r, asked(old(self)@, chunk, stop, now).result),
    {
        match self.session.receive(chunk, now)? {
            None => self.go_negotiate(stop, now),
            Some(m) => self.take_negotiated(&m),
        }
    }

    fn take_heard(&mut self, chunk: Chunk, now: u64) -> (r: Result<Turn, WfdError<String>>)
        ensures
            final(self)@ == heard(old(self)@, chunk, now).state,
            fulfils(r, heard(old(self)@, chunk, now).result),
    {
        match self.session.receive(chunk, now)? {
            None => self.go_tick(),
            Some(m) => self.take_served(&m),
        }
    }

    /// What came of the turn that is out: the next one, or why the talk ends.
    pub fn advance(&mut self, input: Input, stop: bool, now: u64) -> (r: Result<
        Turn,
        WfdError<String>,
    >)
        ensures
            final(self)@ == advanced(old(self)@, input, stop, now).state,
            fulfils(r, advanced(old(self)@, input, stop, now).result),
    {
        match self.phase {
            Phase::Answering => match input {
                Input::Done => self.go_negotiate(stop, now),
                _ => Err(WfdError::Unexpected),
            },
            Phase::Asking => match input {
                Input::Chunk(chunk) => self.take_asked(chunk, stop, now),
                _ => Err(WfdError::Unexpected),
            },
            Phase::Agreed => match input {
                Input::Serve => {
                    if !self.session.has_media() {
                        self.phase = Phase::Over;
                        return Ok(Turn::Over);
                    }
                    self.go_round(stop, now)
                },
                _ => Err(WfdError::Unexpected),
            },
            Phase::Due => match input {
                Input::Done => {
                    if self.over {
                        self.phase = Phase::Over;
                        return Ok(Turn::Over);
                    }
                    self.go_listen(now)
                },
                _ => Err(WfdError::Unexpected),
            },
            Phase::Listening => match input {
                Input::Chunk(chunk) => self.take_heard(chunk, now),
                _ => Err(WfdError::Unexpected),
            },
            Phase::Replying => match input {
                Input::Done => {
                    if self.over {
                        self.phase = Phase::Over;
                        return Ok(Turn::Over);
                    }
                    self.go_tick()
                },
                _ => Err(WfdError::Unexpected),
            },
            Phase::Ticking => match input {
                Input::Done => self.go_round(stop, now),
                _ => Err(WfdError::Unexpected),
            },
            Phase::Over => Err(WfdError::Unexpected),
        }
    }
}

// ---------------------------------------------------------------------------
// Laws
// ---------------------------------------------------------------------------

/// Nothing that is told to the media is among what is sent.
proof fn lemma_sent(actions: Seq<Action<Seq<char>>>)
    ensures
        forall|i: int|
            0 <= i < sent(actions).len() ==> !((#[trigger] sent(actions)[i]) is Emit),
    decreases actions.len(),
{
    if actions.len() > 0 {
        lemma_sent(actions.drop_last());
    }
}

/// A message of the negotiation leads to nothing but what is sent.
proof fn lemma_negotiated_message(s: DialogueModel, m: rtsp::MessageModel)
    ensures
        ({
            let step = negotiated_message(s, m);
            step.result is Ok ==> step.state.phase == Phase::Answering && step.result->Ok_0 is Act
                && forall|i: int|
                0 <= i < step.result->Ok_0->Act_0.len() ==> !((
                #[trigger] step.result->Ok_0->Act_0[i]) is Emit)
        }),
{
    reveal(negotiated_message);
    if negotiated_message(s, m).result is Ok {
        lemma_sent(session::handled(s.session, m).result->Ok_0.0);
    }
}

/// A message of the session leads to what is done.
proof fn lemma_served_message(s: DialogueModel, m: rtsp::MessageModel)
    ensures
        ({
            let step = served_message(s, m);
            step.result is Ok ==> step.state.phase == Phase::Replying && step.result->Ok_0 is Act
        }),
{
    reveal(served_message);
}

/// The phases of the negotiation.
pub open spec fn is_negotiating(phase: Phase) -> bool {
    phase == Phase::Answering || phase == Phase::Asking
}

/// The media are told nothing before the negotiation is over.
pub proof fn law_the_media_wait_for_the_agreement(
    s: DialogueModel,
    input: Input,
    stop: bool,
    now: u64,
    i: int,
)
    requires
        is_negotiating(s.phase),
        advanced(s, input, stop, now).result is Ok,
        advanced(s, input, stop, now).result->Ok_0 is Act,
        0 <= i < advanced(s, input, stop, now).result->Ok_0->Act_0.len(),
    ensures
        !(advanced(s, input, stop, now).result->Ok_0->Act_0[i] is Emit),
        is_negotiating(advanced(s, input, stop, now).state.phase),
{
    assert forall|t: DialogueModel, m: rtsp::MessageModel|
        (#[trigger] negotiated_message(t, m)).result is Ok implies negotiated_message(
        t,
        m,
    ).state.phase == Phase::Answering && negotiated_message(t, m).result->Ok_0 is Act && (forall|
        k: int,
    |
        0 <= k < negotiated_message(t, m).result->Ok_0->Act_0.len() ==> !((
        #[trigger] negotiated_message(t, m).result->Ok_0->Act_0[k]) is Emit)) by {
        lemma_negotiated_message(t, m);
    }
}

/// An agreement is reached only with a session that was set up, or with the capabilities
/// where no more was asked for.
pub proof fn law_agreements_need_a_setup(s: DialogueModel, input: Input, stop: bool, now: u64)
    requires
        advanced(s, input, stop, now).result is Ok,
        advanced(s, input, stop, now).result->Ok_0 is Agreed,
    ensures
        ({
            let session = advanced(s, input, stop, now).state.session;
            session.setup_done || (session.config.probe_codecs
                && session.negotiated.raw_capabilities.len() > 0)
        }),
{
    assert forall|t: DialogueModel, m: rtsp::MessageModel|
        (#[trigger] negotiated_message(t, m)).result is Ok implies negotiated_message(
        t,
        m,
    ).result->Ok_0 is Act by {
        lemma_negotiated_message(t, m);
    }
    assert forall|t: DialogueModel, m: rtsp::MessageModel|
        (#[trigger] served_message(t, m)).result is Ok implies served_message(
        t,
        m,
    ).result->Ok_0 is Act by {
        lemma_served_message(t, m);
    }
}

/// Whatever comes, the negotiation ends by its time: no turn of it waits beyond.
pub proof fn law_negotiations_end_in_time(s: DialogueModel, input: Input, stop: bool, now: u64)
    requires
        is_negotiating(s.phase),
        stop || now >= s.deadline,
        advanced(s, input, stop, now).result is Ok,
    ensures
        !(advanced(s, input, stop, now).result->Ok_0 is Read),
{
    assert forall|t: DialogueModel, m: rtsp::MessageModel|
        (#[trigger] negotiated_message(t, m)).result is Ok implies negotiated_message(
        t,
        m,
    ).result->Ok_0 is Act by {
        lemma_negotiated_message(t, m);
    }
}

/// When the user gives up, the next round tells the receiver and the media, and is the last.
pub proof fn law_stopping_ends_the_session(s: DialogueModel, now: u64)
    requires
        s.phase == Phase::Ticking,
        s.session.next_cseq < u32::MAX,
    ensures
        advanced(s, Input::Done, true, now).result == Ok::<TurnModel, WfdError<Seq<char>>>(
            TurnModel::Act(session::stop_actions(s.session)),
        ),
        advanced(advanced(s, Input::Done, true, now).state, Input::Done, true, now).result == Ok::<
            TurnModel,
            WfdError<Seq<char>>,
        >(TurnModel::Over),
{
}

/// What goes wrong with a message is never that the receiver did not connect.
proof fn lemma_message_errors(s: SessionModel, m: rtsp::MessageModel)
    ensures
        session::handled(s, m).result matches Err(e) ==> !(e is InitialConnectionTimeout),
{
    let params = wfd::parameter_map(text::lines(m.body));
    let ports = wfd::ports_of(params["wfd_client_rtp_ports"@]);
    assert(ports matches Err(e) ==> !(e is InitialConnectionTimeout));
}

/// What goes wrong with a message of the negotiation.
proof fn lemma_negotiated_errors(s: DialogueModel, m: rtsp::MessageModel)
    ensures
        negotiated_message(s, m).result matches Err(e) ==> !(e is InitialConnectionTimeout),
{
    reveal(negotiated_message);
    lemma_message_errors(s.session, m);
}

/// What goes wrong with a message of the session.
proof fn lemma_served_errors(s: DialogueModel, m: rtsp::MessageModel)
    ensures
        served_message(s, m).result matches Err(e) ==> !(e is InitialConnectionTimeout),
{
    reveal(served_message);
    lemma_message_errors(s.session, m);
}

/// Once the receiver has connected, no failure counts as its absence: connecting anew is not
/// tried.
pub proof fn law_connected_receivers_are_not_absent(
    s: DialogueModel,
    input: Input,
    stop: bool,
    now: u64,
)
    ensures
        advanced(s, input, stop, now).result matches Err(e) ==> !(e is InitialConnectionTimeout),
{
    assert forall|d: DialogueModel, m: rtsp::MessageModel|
        (#[trigger] negotiated_message(d, m)).result matches Err(e) ==> !(
        e is InitialConnectionTimeout) by {
        lemma_negotiated_errors(d, m);
    }
    assert forall|d: DialogueModel, m: rtsp::MessageModel|
        (#[trigger] served_message(d, m)).result matches Err(e) ==> !(
        e is InitialConnectionTimeout) by {
        lemma_served_errors(d, m);
    }
}

/// What is sent is all of what is done but what the media are told, in its order.
pub proof fn law_messages_are_sent_in_order(a: Seq<Action<Seq<char>>>, action: Action<Seq<char>>)
    ensures
        action is Emit ==> sent(a.push(action)) == sent(a),
        !(action is Emit) ==> sent(a.push(action)) == sent(a).push(action),
        sent(Seq::empty()) == Seq::<Action<Seq<char>>>::empty(),
{
    assert(a.push(action).drop_last() =~= a);
}

/// A quiet round: nothing is due, nothing came and nothing comes; the media are looked after,
/// and the next round begins. A receiver that was silent for forty-five seconds ends the
/// session instead.
pub proof fn law_quiet_rounds(s: DialogueModel, now: u64)
    requires
        s.phase == Phase::Ticking,
        s.session.next_cseq < u32::MAX,
        0 <= s.session.last_keepalive <= now,
        now - s.session.last_keepalive < 15_000,
        0 <= s.session.last_received <= now,
        session::first_message(s.session) == Ok::<
            Option<rtsp::MessageModel>,
            WfdError<Seq<char>>,
        >(None),
    ensures
        ({
            let begun = advanced(s, Input::Done, false, now);
            let listened = advanced(begun.state, Input::Done, false, now);
            &&& begun.result == Ok::<TurnModel, WfdError<Seq<char>>>(
                TurnModel::Act(Seq::empty()),
            )
            &&& now - s.session.last_received < 45_000 ==> listened.result == Ok::<TurnModel, WfdError<Seq<char>>>(TurnModel::Read) && listened.state.phase == Phase::Listening
                && listened.state.session == s.session
            &&& now - s.session.last_received >= 45_000 ==> listened.result == Err::<TurnModel, WfdError<Seq<char>>>(WfdError::KeepaliveTimeout)
        }),
{
}

/// What comes of waiting in a session: a receiver that closed the connection ends it; where
/// nothing came, or no whole message, the media are looked after, and the next round follows.
pub proof fn law_waiting_in_a_session(s: DialogueModel, bytes: Vec<u8>, now: u64)
    requires
        s.phase == Phase::Listening,
        session::first_message(fed(s, bytes@).session) == Ok::<
            Option<rtsp::MessageModel>,
            WfdError<Seq<char>>,
        >(None),
    ensures
        advanced(s, Input::Chunk(Chunk::Closed), false, now).result == Err::<TurnModel, WfdError<Seq<char>>>(
            WfdError::Closed,
        ),
        advanced(s, Input::Chunk(Chunk::Nothing), false, now).result == Ok::<TurnModel, WfdError<Seq<char>>>(
            TurnModel::Act(seq![Action::Emit(Event::Tick)]),
        ),
        advanced(s, Input::Chunk(Chunk::Bytes(bytes)), false, now).result == Ok::<TurnModel, WfdError<Seq<char>>>(
            TurnModel::Act(seq![Action::Emit(Event::Tick)]),
        ),
        advanced(s, Input::Chunk(Chunk::Bytes(bytes)), false, now).state.session.bytes
            == s.session.bytes + bytes@,
        advanced(s, Input::Chunk(Chunk::Nothing), false, now).state.phase == Phase::Ticking,
{
}

/// A message of a session that comes as bytes is taken from them; all that it leads to is done,
/// and it counts as heard at that time. Behind the last of it the session is over where the
/// message ends it, else the media are looked after.
pub proof fn law_messages_are_served(
    s: DialogueModel,
    bytes: Vec<u8>,
    m: rtsp::MessageModel,
    rest: Seq<u8>,
    now: u64,
)
    requires
        s.phase == Phase::Listening,
        s.session.next_cseq < u32::MAX,
        rtsp::decoded(s.session.bytes + bytes@) == Ok::<
            Option<(rtsp::MessageModel, Seq<u8>)>,
            rtsp::RtspError<Seq<char>>,
        >(Some((m, rest))),
    ensures
        ({
            let heard = SessionModel { bytes: rest, last_received: now as int, ..s.session };
            let outcome = session::handled(heard, m);
            let step = advanced(s, Input::Chunk(Chunk::Bytes(bytes)), false, now);
            let next = advanced(step.state, Input::Done, false, now);
            &&& outcome.result is Err ==> step.result == Err::<TurnModel, WfdError<Seq<char>>>(outcome.result->Err_0)
            &&& outcome.result is Ok ==> {
                &&& step.result == Ok::<TurnModel, WfdError<Seq<char>>>(TurnModel::Act(outcome.result->Ok_0.0))
                &&& step.state.session == outcome.state
                &&& outcome.result->Ok_0.1 ==> next.result == Ok::<TurnModel, WfdError<Seq<char>>>(TurnModel::Over)
                &&& !outcome.result->Ok_0.1 ==> next.result == Ok::<TurnModel, WfdError<Seq<char>>>(
                    TurnModel::Act(seq![Action::Emit(Event::Tick)]),
                )
            }
        }),
{
    reveal(served_message);
}

/// A negotiation goes on until the session is set up, or until the capabilities are known
/// where no more was asked for. Until then the user may give up, and it has its time. A
/// receiver that closes the connection ends it.
pub proof fn law_negotiations_go_on(s: DialogueModel, stop: bool, now: u64)
    requires
        s.phase == Phase::Answering,
        session::first_message(s.session) == Ok::<
            Option<rtsp::MessageModel>,
            WfdError<Seq<char>>,
        >(None),
    ensures
        ({
            let step = advanced(s, Input::Done, stop, now);
            let agreed = s.session.setup_done || (s.session.config.probe_codecs
                && s.session.negotiated.raw_capabilities.len() > 0);
            &&& agreed ==> step.result == Ok::<TurnModel, WfdError<Seq<char>>>(TurnModel::Agreed) && step.state.phase == Phase::Agreed
            &&& !agreed && stop ==> step.result == Err::<TurnModel, WfdError<Seq<char>>>(
                WfdError::Cancelled,
            )
            &&& !agreed && !stop && now >= s.deadline ==> step.result == Err::<TurnModel, WfdError<Seq<char>>>(WfdError::NegotiationTimeout)
            &&& !agreed && !stop && now < s.deadline ==> {
                &&& step.result == Ok::<TurnModel, WfdError<Seq<char>>>(TurnModel::Read)
                &&& advanced(step.state, Input::Chunk(Chunk::Closed), stop, now).result == Err::<TurnModel, WfdError<Seq<char>>>(WfdError::Closed)
                &&& advanced(step.state, Input::Chunk(Chunk::Nothing), stop, now).result == Ok::<TurnModel, WfdError<Seq<char>>>(TurnModel::Read)
            }
        }),
{
}

/// An agreement on the capabilities alone is the end; any other is served, beginning with what
/// is due.
pub proof fn law_agreements_are_served(s: DialogueModel, stop: bool, now: u64)
    requires
        s.phase == Phase::Agreed,
        s.session.next_cseq < u32::MAX,
    ensures
        s.session.negotiated.probe_only ==> advanced(s, Input::Serve, stop, now).result == Ok::<TurnModel, WfdError<Seq<char>>>(TurnModel::Over),
        !s.session.negotiated.probe_only ==> advanced(s, Input::Serve, stop, now).result == Ok::<TurnModel, WfdError<Seq<char>>>(
            TurnModel::Act(session::due_actions(s.session, stop, now as int)),
        ) && advanced(s, Input::Serve, stop, now).state.over == stop,
{
}

} // verus!
