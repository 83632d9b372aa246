//! The screen sharing portal: its requests, its answers and the session that they make.
use crate::number;
use crate::text;
use vstd::prelude::*;

verus! {

/// Why a screen is not shared.
#[derive(Debug, PartialEq, Eq)]
pub enum PortalError<T> {
    /// The user gave up while this went on.
    Cancelled(T),
    /// This took too long.
    TimedOut(T),
    /// The user declined in this step.
    Declined(T),
    /// The portal refused this step, with this code.
    Refused(T, u32),
    /// A session without its handle.
    NoHandle,
    /// A path that is none.
    InvalidPath,
    /// No streams.
    NoStreams,
    /// Streams of another form.
    InvalidStreams(T),
    /// None or several streams.
    NotOneStream(usize),
}

impl PortalError<String> {
    /// The error with its text as a sequence.
    pub open spec fn view(self) -> PortalError<Seq<char>> {
        match self {
            PortalError::Cancelled(s) => PortalError::Cancelled(s@),
            PortalError::TimedOut(s) => PortalError::TimedOut(s@),
            PortalError::Declined(s) => PortalError::Declined(s@),
            PortalError::Refused(s, code) => PortalError::Refused(s@, code),
            PortalError::NoHandle => PortalError::NoHandle,
            PortalError::InvalidPath => PortalError::InvalidPath,
            PortalError::NoStreams => PortalError::NoStreams,
            PortalError::InvalidStreams(s) => PortalError::InvalidStreams(s@),
            PortalError::NotOneStream(n) => PortalError::NotOneStream(n),
        }
    }

    /// The message shown to the user.
    pub fn text(&self) -> (r: String)
        ensures
            r@ == error_text(self@),
    {
        match self {
            PortalError::Cancelled(s) => "screen sharing cancelled while ".to_owned().concat(
                s.as_str(),
            ),
            PortalError::TimedOut(s) => "timed out while ".to_owned().concat(s.as_str()),
            PortalError::Declined(s) => "screen sharing was cancelled during ".to_owned().concat(
                s.as_str(),
            ),
            PortalError::Refused(s, code) => "screen sharing portal rejected ".to_owned().concat(
                s.as_str(),
            ).concat(" (response ").concat(number::decimal_text(*code as u64).as_str()).concat(")"),
            PortalError::NoHandle => "portal omitted session_handle".to_owned(),
            PortalError::InvalidPath => "Invalid object path".to_owned(),
            PortalError::NoStreams => "portal omitted streams".to_owned(),
            PortalError::InvalidStreams(s) => {
                "invalid portal streams response: ".to_owned().concat(s.as_str())
            },
            PortalError::NotOneStream(n) => "expected one monitor stream, received ".to_owned().concat(
                number::decimal_text(*n as u64).as_str(),
            ),
        }
    }
}

/// The text of each error.
pub open spec fn error_text(e: PortalError<Seq<char>>) -> Seq<char> {
    match e {
        PortalError::Cancelled(s) => "screen sharing cancelled while "@ + s,
        PortalError::TimedOut(s) => "timed out while "@ + s,
        PortalError::Declined(s) => "screen sharing was cancelled during "@ + s,
        PortalError::Refused(s, code) => "screen sharing portal rejected "@ + s + " (response "@
            + number::decimal(code as int) + ")"@,
        PortalError::NoHandle => "portal omitted session_handle"@,
        PortalError::InvalidPath => "Invalid object path"@,
        PortalError::NoStreams => "portal omitted streams"@,
        PortalError::InvalidStreams(s) => "invalid portal streams response: "@ + s,
        PortalError::NotOneStream(n) => "expected one monitor stream, received "@
            + number::decimal(n as int),
    }
}

// ---------------------------------------------------------------------------
// Names and paths
// ---------------------------------------------------------------------------

/// A character of a name in an object path.
pub open spec fn is_path_char(c: char) -> bool {
    ('a' <= c && c <= 'z') || ('A' <= c && c <= 'Z') || ('0' <= c && c <= '9') || c == '_'
}

/// An object path of D-Bus: a slash alone, or names that are not empty, each with a slash
/// in front of it.
pub open spec fn is_object_path(s: Seq<char>) -> bool {
    let names = text::split(s.skip(1), '/');
    &&& s.len() > 0
    &&& s[0] == '/'
    &&& s.len() == 1 || forall|i: int|
        0 <= i < names.len() ==> (#[trigger] names[i]).len() > 0 && forall|k: int|
            0 <= k < names[i].len() ==> is_path_char(#[trigger] names[i][k])
}

/// `zbus::zvariant::ObjectPath::try_from`: whether a text is an object path of D-Bus.
#[verifier::external_body]
fn valid_path(path: &str) -> (r: bool)
    ensures
        r == is_object_path(path@),
{
    zbus::zvariant::ObjectPath::try_from(path).is_ok()
}

/// A token that no other request of the process has, made of letters, digits and
/// underscores.
pub open spec fn token_of(process: int, sequence: int) -> Seq<char> {
    "remote_screen_"@ + number::decimal(process) + "_"@ + number::decimal(sequence)
}

/// A token for a request.
pub fn token(process: u32, sequence: u64) -> (r: String)
    ensures
        r@ == token_of(process as int, sequence as int),
{
    let mut s = "remote_screen_".to_owned();
    s.append(number::decimal_text(process as u64).as_str());
    s.append("_");
    s.append(number::decimal_text(sequence).as_str());
    s
}

/// Without the colons in front.
pub open spec fn without_colons(s: Seq<char>) -> Seq<char>
    decreases s.len(),
{
    if s.len() > 0 && s[0] == ':' {
        without_colons(s.skip(1))
    } else {
        s
    }
}

/// A name on the bus as it stands in paths: without the colons in front, and with
/// underscores for full stops.
pub open spec fn component_of(name: Seq<char>) -> Seq<char> {
    let s = without_colons(name);
    Seq::new(
        s.len(),
        |i: int|
            if s[i] == '.' {
                '_'
            } else {
                s[i]
            },
    )
}

/// A name on the bus as it stands in paths.
pub fn sender_component(name: &str) -> (r: String)
    ensures
        r@ == component_of(name@),
{
    let chars = text::chars_of(name);
    let mut from: usize = 0;
    proof {
        assert(chars@.skip(0) =~= chars@);
    }
    while from < chars.len() && chars[from] == ':'
        invariant
            from <= chars@.len(),
            without_colons(chars@) == without_colons(chars@.skip(from as int)),
        decreases chars@.len() - from,
    {
        proof {
            assert(chars@.skip(from as int).skip(1) =~= chars@.skip(from + 1));
        }
        from = from + 1;
    }
    let ghost rest = chars@.skip(from as int);
    let ghost wanted = component_of(name@);
    let mut out = String::new();
    let mut i: usize = from;
    proof {
        assert(without_colons(name@) == rest);
        assert(wanted.take(0) =~= Seq::<char>::empty());
    }
    while i < chars.len()
        invariant
            from <= i <= chars@.len(),
            rest == chars@.skip(from as int),
            wanted == component_of(name@),
            without_colons(name@) == rest,
            out@ == wanted.take(i - from),
        decreases chars@.len() - i,
    {
        if chars[i] == '.' {
            out.push('_');
        } else {
            out.push(chars[i]);
        }
        proof {
            assert(rest[i - from] == chars@[i as int]);
            assert(wanted.take(i - from + 1) =~= wanted.take(i - from).push(wanted[i - from]));
        }
        i = i + 1;
    }
    proof {
        assert(wanted.take(i - from) =~= wanted);
    }
    out
}

/// The path of a session.
pub open spec fn session_path_of(sender: Seq<char>, token: Seq<char>) -> Seq<char> {
    "/org/freedesktop/portal/desktop/session/"@ + component_of(sender) + "/"@ + token
}

/// The path of a request.
pub open spec fn request_path_of(sender: Seq<char>, token: Seq<char>) -> Seq<char> {
    "/org/freedesktop/portal/desktop/request/"@ + component_of(sender) + "/"@ + token
}

/// The path of a session, where it is one.
pub fn session_path(sender: &str, token: &str) -> (r: Result<String, PortalError<String>>)
    ensures
        ({
            let path = session_path_of(sender@, token@);
            if is_object_path(path) {
                r is Ok && r->Ok_0@ == path
            } else {
                r is Err && r->Err_0@ is InvalidPath
            }
        }),
{
    let mut s = "/org/freedesktop/portal/desktop/session/".to_owned();
    s.append(sender_component(sender).as_str());
    s.append("/");
    s.append(token);
    checked_path(s)
}

/// The path of a request.
pub fn request_path(sender: &str, token: &str) -> (r: String)
    ensures
        r@ == request_path_of(sender@, token@),
{
    let mut s = "/org/freedesktop/portal/desktop/request/".to_owned();
    s.append(sender_component(sender).as_str());
    s.append("/");
    s.append(token);
    s
}

/// A text that has to be a path.
pub fn checked_path(path: String) -> (r: Result<String, PortalError<String>>)
    ensures
        if is_object_path(path@) {
            r is Ok && r->Ok_0@ == path@
        } else {
            r is Err && r->Err_0@ is InvalidPath
        },
{
    if valid_path(path.as_str()) {
        Ok(path)
    } else {
        Err(PortalError::InvalidPath)
    }
}

// ---------------------------------------------------------------------------
// The steps
// ---------------------------------------------------------------------------

/// An option of a request.
#[derive(Debug, PartialEq, Eq)]
pub enum Choice {
    Text(String),
    Number(u32),
    Flag(bool),
}

/// An option of a request.
pub ghost enum ChoiceModel {
    Text(Seq<char>),
    Number(u32),
    Flag(bool),
}

impl View for Choice {
    type V = ChoiceModel;

    open spec fn view(&self) -> ChoiceModel {
        match self {
            Choice::Text(s) => ChoiceModel::Text(s@),
            Choice::Number(n) => ChoiceModel::Number(*n),
            Choice::Flag(b) => ChoiceModel::Flag(*b),
        }
    }
}

/// Options with their texts as sequences.
pub open spec fn choice_views(v: Seq<(&'static str, Choice)>) -> Seq<(Seq<char>, ChoiceModel)> {
    Seq::new(v.len(), |i: int| (v[i].0@, v[i].1@))
}

/// A step of the way to a shared screen.
#[derive(Clone, Copy, Debug, PartialEq, Eq, Structural)]
pub enum Step {
    CreateSession,
    SelectSources,
    Start,
    OpenRemote,
}

impl Step {
    /// The method of the portal.
    pub open spec fn method(self) -> Seq<char> {
        match self {
            Step::CreateSession => "CreateSession"@,
            Step::SelectSources => "SelectSources"@,
            Step::Start => "Start"@,
            Step::OpenRemote => "OpenPipeWireRemote"@,
        }
    }

    /// The method of the portal.
    pub fn method_name(self) -> (r: &'static str)
        ensures
            r@ == self.method(),
    {
        match self {
            Step::CreateSession => "CreateSession",
            Step::SelectSources => "SelectSources",
            Step::Start => "Start",
            Step::OpenRemote => "OpenPipeWireRemote",
        }
    }
}

/// The options of a step: one monitor, with the cursor drawn into it.
pub open spec fn options_of(step: Step, token: Seq<char>, session_token: Seq<char>) -> Seq<
    (Seq<char>, ChoiceModel),
> {
    match step {
        Step::CreateSession => seq![
            ("handle_token"@, ChoiceModel::Text(token)),
            ("session_handle_token"@, ChoiceModel::Text(session_token)),
        ],
        Step::SelectSources => seq![
            ("handle_token"@, ChoiceModel::Text(token)),
            ("types"@, ChoiceModel::Number(1)),
            ("multiple"@, ChoiceModel::Flag(false)),
            ("cursor_mode"@, ChoiceModel::Number(2)),
        ],
        Step::Start => seq![("handle_token"@, ChoiceModel::Text(token))],
        Step::OpenRemote => Seq::empty(),
    }
}

/// The options of a step.
pub fn options(step: Step, token: &str, session_token: &str) -> (r: Vec<(&'static str, Choice)>)
    ensures
        choice_views(r@) == options_of(step, token@, session_token@),
{
    let mut v: Vec<(&'static str, Choice)> = Vec::new();
    match step {
        Step::CreateSession => {
            v.push(("handle_token", Choice::Text(token.to_owned())));
            v.push(("session_handle_token", Choice::Text(session_token.to_owned())));
        },
        Step::SelectSources => {
            v.push(("handle_token", Choice::Text(token.to_owned())));
            v.push(("types", Choice::Number(1)));
            v.push(("multiple", Choice::Flag(false)));
            v.push(("cursor_mode", Choice::Number(2)));
        },
        Step::Start => {
            v.push(("handle_token", Choice::Text(token.to_owned())));
        },
        Step::OpenRemote => {},
    }
    proof {
        assert(choice_views(v@) =~= options_of(step, token@, session_token@));
    }
    v
}

/// The answer to a request: only zero is consent.
pub fn response_result(method: &str, code: u32) -> (r: Result<(), PortalError<String>>)
    ensures
        r is Ok <==> code == 0,
        r is Err ==> r->Err_0@ == if code == 1 {
            PortalError::Declined(method@)
        } else {
            PortalError::Refused(method@, code)
        },
{
    match code {
        0 => Ok(()),
        1 => Err(PortalError::Declined(method.to_owned())),
        _ => Err(PortalError::Refused(method.to_owned(), code)),
    }
}

/// The one stream among those that the portal gave, by their nodes.
pub fn stream_node(streams: Result<Vec<u32>, String>) -> (r: Result<u32, PortalError<String>>)
    ensures
        match streams {
            Err(e) => r is Err && r->Err_0@ == PortalError::InvalidStreams(e@),
            Ok(nodes) => if nodes@.len() == 1 {
                r is Ok && r->Ok_0 == nodes@[0]
            } else {
                r is Err && r->Err_0@ == PortalError::<Seq<char>>::NotOneStream(
                    nodes@.len() as usize,
                )
            },
        },
{
    match streams {
        Err(e) => Err(PortalError::InvalidStreams(e)),
        Ok(nodes) => {
            if nodes.len() != 1 {
                return Err(PortalError::NotOneStream(nodes.len()));
            }
            Ok(nodes[0])
        },
    }
}

/// What a step brought.
pub enum Answer {
    /// A session, with its handle if it has one.
    Created(Option<String>),
    /// The sources are selected.
    Selected,
    /// Streams, if there are any, or what is wrong with them.
    Started(Option<Result<Vec<u32>, String>>),
}

/// Where the way to a shared screen stands.
pub struct Opening {
    /// The step that is next.
    pub step: Step,
    /// The session, which is closed whatever happens.
    pub session: String,
    /// The stream, once it is known.
    pub node: u32,
}

/// Where the way to a shared screen stands.
pub ghost struct OpeningModel {
    pub step: Step,
    pub session: Seq<char>,
    pub node: u32,
}

impl View for Opening {
    type V = OpeningModel;

    open spec fn view(&self) -> OpeningModel {
        OpeningModel { step: self.step, session: self.session@, node: self.node }
    }
}

/// The state behind an answer, or why the way ends there.
pub open spec fn advanced(s: OpeningModel, answer: Answer) -> Result<
    OpeningModel,
    PortalError<Seq<char>>,
> {
    match answer {
        Answer::Created(None) => Err(PortalError::NoHandle),
        Answer::Created(Some(handle)) => if is_object_path(handle@) {
            Ok(OpeningModel { step: Step::SelectSources, session: handle@, ..s })
        } else {
            Err(PortalError::InvalidPath)
        },
        Answer::Selected => Ok(OpeningModel { step: Step::Start, ..s }),
        Answer::Started(None) => Err(PortalError::NoStreams),
        Answer::Started(Some(Err(e))) => Err(PortalError::InvalidStreams(e@)),
        Answer::Started(Some(Ok(nodes))) => if nodes@.len() == 1 {
            Ok(OpeningModel { step: Step::OpenRemote, node: nodes@[0], ..s })
        } else {
            Err(PortalError::NotOneStream(nodes@.len() as usize))
        },
    }
}

/// Whether an answer is one to the step that is next.
pub open spec fn fits(step: Step, answer: Answer) -> bool {
    match answer {
        Answer::Created(_) => step == Step::CreateSession,
        Answer::Selected => step == Step::SelectSources,
        Answer::Started(_) => step == Step::Start,
    }
}

impl Opening {
    /// The way starts with a session of this path.
    pub fn new(session: String) -> (r: Opening)
        ensures
            r@ == (OpeningModel { step: Step::CreateSession, session: session@, node: 0 }),
    {
        Opening { step: Step::CreateSession, session, node: 0 }
    }

    /// Takes an answer to the step that is next. Where it fails, the session stays as it
    /// was.
    pub fn advance(&mut self, answer: Answer) -> (r: Result<(), PortalError<String>>)
        requires
            fits(old(self).step, answer),
        ensures
            match advanced(old(self)@, answer) {
                Ok(next) => r is Ok && final(self)@ == next,
                Err(e) => r is Err && r->Err_0@ == e && final(self)@ == old(self)@,
            },
    {
        match answer {
            Answer::Created(handle) => match handle {
                None => Err(PortalError::NoHandle),
                Some(handle) => {
                    let path = checked_path(handle)?;
                    self.session = path;
                    self.step = Step::SelectSources;
                    Ok(())
                },
            },
            Answer::Selected => {
                self.step = Step::Start;
                Ok(())
            },
            Answer::Started(streams) => match streams {
                None => Err(PortalError::NoStreams),
                Some(streams) => {
                    let node: u32 = stream_node(streams)?;
                    self.node = node;
                    self.step = Step::OpenRemote;
                    Ok(())
                },
            },
        }
    }
}

/// Whether to go on waiting. Giving up goes before the time limit.
pub fn check_wait(operation: &str, cancelled: bool, now_ms: u64, deadline_ms: u64) -> (r: Result<
    (),
    PortalError<String>,
>)
    ensures
        if cancelled {
            r is Err && r->Err_0@ == PortalError::Cancelled(operation@)
        } else if now_ms >= deadline_ms {
            r is Err && r->Err_0@ == PortalError::TimedOut(operation@)
        } else {
            r is Ok
        },
{
    if cancelled {
        Err(PortalError::Cancelled(operation.to_owned()))
    } else if now_ms >= deadline_ms {
        Err(PortalError::TimedOut(operation.to_owned()))
    } else {
        Ok(())
    }
}

/// Whether a signal is the answer to a request.
pub fn is_response(path: Option<&str>, request: &str) -> (r: bool)
    ensures
        r == (path is Some && path->Some_0@ == request@),
{
    match path {
        Some(path) => text::same(path, request),
        None => false,
    }
}

// ---------------------------------------------------------------------------
// Laws
// ---------------------------------------------------------------------------

/// A token is made of characters that may stand in a path.
pub proof fn law_tokens_are_path_names(process: int, sequence: int)
    requires
        0 <= process,
        0 <= sequence,
    ensures
        token_of(process, sequence).len() > 0,
        forall|i: int|
            0 <= i < token_of(process, sequence).len() ==> is_path_char(
                #[trigger] token_of(process, sequence)[i],
            ),
{
    reveal_strlit("remote_screen_");
    reveal_strlit("_");
    number::lemma_decimal(process);
    number::lemma_decimal(sequence);
    let t = token_of(process, sequence);
    let a = "remote_screen_"@;
    let b = number::decimal(process);
    let c = number::decimal(sequence);
    assert forall|i: int| 0 <= i < t.len() implies is_path_char(#[trigger] t[i]) by {
        if i < a.len() {
            assert(t[i] == a[i]);
        } else if i < a.len() + b.len() {
            assert(t[i] == b[i - a.len()]);
            assert(number::digit_value(b[i - a.len()]) < 10);
        } else if i == a.len() + b.len() {
            assert(t[i] == '_');
        } else {
            assert(t[i] == c[i - a.len() - b.len() - 1]);
            assert(number::digit_value(c[i - a.len() - b.len() - 1]) < 10);
        }
    }
}

/// Tokens of different requests are different.
pub proof fn law_tokens_are_unique(process: int, first: int, second: int)
    requires
        0 <= process,
        0 <= first,
        0 <= second,
        token_of(process, first) == token_of(process, second),
    ensures
        first == second,
{
    let front = "remote_screen_"@ + number::decimal(process) + "_"@;
    let a = token_of(process, first);
    let b = token_of(process, second);
    assert(a.skip(front.len() as int) =~= number::decimal(first));
    assert(b.skip(front.len() as int) =~= number::decimal(second));
    number::lemma_decimal(first);
    number::lemma_decimal(second);
}

/// The way has four steps, in one order: only a whole answer leads on, and only the last
/// one leads to a stream.
pub proof fn law_steps_go_in_order(s: OpeningModel, answer: Answer)
    requires
        fits(s.step, answer),
        advanced(s, answer) is Ok,
    ensures
        ({
            let next = advanced(s, answer)->Ok_0;
            &&& s.step == Step::CreateSession ==> next.step == Step::SelectSources
            &&& s.step == Step::SelectSources ==> next.step == Step::Start && next.session
                == s.session
            &&& s.step == Step::Start ==> next.step == Step::OpenRemote && next.session
                == s.session
            &&& next.node == s.node || next.step == Step::OpenRemote
        }),
{
}

/// A name on the bus stands in paths without the colon in front and with underscores for its full
/// stops, and has only characters of paths where the rest of it has.
pub proof fn law_senders_in_paths(name: Seq<char>)
    requires
        name.len() > 0,
        name[0] != ':',
        forall|i: int| 0 <= i < name.len() ==> is_path_char(#[trigger] name[i]) || name[i] == '.',
    ensures
        component_of(seq![':'] + name) == component_of(name),
        component_of(name).len() == name.len(),
        forall|i: int|
            0 <= i < name.len() ==> #[trigger] component_of(name)[i] == if name[i] == '.' {
                '_'
            } else {
                name[i]
            },
        forall|i: int| 0 <= i < name.len() ==> is_path_char(#[trigger] component_of(name)[i]),
{
    assert((seq![':'] + name).skip(1) =~= name);
    assert(without_colons(seq![':'] + name) == without_colons(name));
    assert forall|i: int| 0 <= i < name.len() implies is_path_char(#[trigger] component_of(name)[i]) by {
        assert(is_path_char(name[i]) || name[i] == '.');
    }
}

/// The paths of sessions and of requests are different, and those of two tokens are.
pub proof fn law_paths_are_told_apart(sender: Seq<char>, first: Seq<char>, second: Seq<char>)
    ensures
        session_path_of(sender, first) != request_path_of(sender, second),
        first != second ==> request_path_of(sender, first) != request_path_of(sender, second),
        first != second ==> session_path_of(sender, first) != session_path_of(sender, second),
        text::starts_with(
            session_path_of(sender, first),
            "/org/freedesktop/portal/desktop/session/"@,
        ),
        text::starts_with(
            request_path_of(sender, first),
            "/org/freedesktop/portal/desktop/request/"@,
        ),
        text::ends_with(session_path_of(sender, first), "/"@ + first),
        text::ends_with(request_path_of(sender, first), "/"@ + first),
{
    reveal_strlit("/org/freedesktop/portal/desktop/session/");
    reveal_strlit("/org/freedesktop/portal/desktop/request/");
    let s = "/org/freedesktop/portal/desktop/session/"@;
    let q = "/org/freedesktop/portal/desktop/request/"@;
    let a = session_path_of(sender, first);
    let b = request_path_of(sender, second);
    let c = request_path_of(sender, first);
    let d = session_path_of(sender, second);
    assert(a[32] == s[32] && b[32] == q[32]);
    assert(s[32] == 's' && q[32] == 'r');
    assert(a.take(s.len() as int) =~= s);
    assert(c.take(q.len() as int) =~= q);
    assert(a.skip(a.len() - ("/"@ + first).len()) =~= "/"@ + first);
    assert(c.skip(c.len() - ("/"@ + first).len()) =~= "/"@ + first);
    let n = (q + component_of(sender) + "/"@).len() as int;
    assert(c.skip(n) =~= first);
    assert(b.skip(n) =~= second);
    let m = (s + component_of(sender) + "/"@).len() as int;
    assert(a.skip(m) =~= first);
    assert(d.skip(m) =~= second);
}

/// One monitor is asked for, with the cursor in its picture, and every request carries its token.
pub proof fn law_one_monitor_is_asked_for(token: Seq<char>, session_token: Seq<char>)
    ensures
        options_of(Step::SelectSources, token, session_token).contains(
            ("types"@, ChoiceModel::Number(1)),
        ),
        options_of(Step::SelectSources, token, session_token).contains(
            ("multiple"@, ChoiceModel::Flag(false)),
        ),
        options_of(Step::SelectSources, token, session_token).contains(
            ("cursor_mode"@, ChoiceModel::Number(2)),
        ),
        options_of(Step::CreateSession, token, session_token).contains(
            ("session_handle_token"@, ChoiceModel::Text(session_token)),
        ),
        options_of(Step::CreateSession, token, session_token)[0] == (
            "handle_token"@,
            ChoiceModel::Text(token),
        ),
        options_of(Step::SelectSources, token, session_token)[0] == (
            "handle_token"@,
            ChoiceModel::Text(token),
        ),
        options_of(Step::Start, token, session_token) == seq![
            ("handle_token"@, ChoiceModel::Text(token)),
        ],
{
    let a = options_of(Step::SelectSources, token, session_token);
    assert(a[1] == a[1] && a[2] == a[2] && a[3] == a[3]);
    let b = options_of(Step::CreateSession, token, session_token);
    assert(b[1] == b[1]);
}

/// The way to a shared screen, from its start to its end: the session is the one that the portal
/// gives, and the stream is the only one that comes with it.
pub proof fn law_the_way_to_a_screen(
    s: OpeningModel,
    handle: String,
    nodes: Vec<u32>,
)
    requires
        s.step == Step::CreateSession,
        is_object_path(handle@),
    ensures
        ({
            let created = advanced(s, Answer::Created(Some(handle)));
            let selected = advanced(created->Ok_0, Answer::Selected);
            let started = advanced(selected->Ok_0, Answer::Started(Some(Ok(nodes))));
            &&& created is Ok && created->Ok_0.step == Step::SelectSources
            &&& selected is Ok && selected->Ok_0.step == Step::Start
            &&& nodes@.len() == 1 ==> started == Ok::<OpeningModel, PortalError<Seq<char>>>(
                OpeningModel { step: Step::OpenRemote, session: handle@, node: nodes@[0] },
            )
            &&& nodes@.len() != 1 ==> started is Err
            &&& advanced(s, Answer::Created(None)) is Err
            &&& advanced(selected->Ok_0, Answer::Started(None)) is Err
        }),
{
}

} // verus!
