//! A SOCKS5 client's session: the handshake, the request, the choice of an agent, and the answer
//! to the client.

use vstd::prelude::*;

use crate::cicada::agents::{is_candidate, selection_error, AgentMap, Candidate, SelectError};
use crate::cicada::handshake::{
    auth_message,
    greeting_message,
    handshake,
    handshake_error_text,
    law_any_password_is_accepted,
    law_handshake_follows_grammar,
    law_no_authentication_without_offer,
    HandshakeEnd,
    HandshakeError,
    HandshakeState,
    HandshakeView,
    SOCKS_VERSION,
};
use crate::cicada::pending::ConnectError;
use crate::cicada::request::{
    connect_request,
    law_request_follows_grammar,
    request_error_text,
    RequestEnd,
    RequestError,
    RequestState,
    RequestView,
};
use crate::cicada::selector::selector_of;
use crate::payload::{optional_text, Payload, PayloadView};
use crate::target::{ConnectTarget, TargetView};

verus! {

/// Whether `text` has the form of a random UUID: 32 lower-case hexadecimal digits in five groups
/// that are separated by hyphens, with the version four and the variant of RFC 9562.
pub open spec fn is_random_uuid(text: Seq<char>) -> bool {
    &&& text.len() == 36
    &&& forall|i: int|
        0 <= i < 36 ==> if i == 8 || i == 13 || i == 18 || i == 23 {
            #[trigger] text[i] == '-'
        } else {
            '0' <= text[i] <= '9' || 'a' <= text[i] <= 'f'
        }
    &&& text[14] == '4'
    &&& text[19] == '8' || text[19] == '9' || text[19] == 'a' || text[19] == 'b'
}

/// `Uuid::new_v4` draws a random UUID, and its `to_string` writes it with hyphens, in lower
/// case. Which one is left to chance.
#[verifier::external_body]
fn random_uuid() -> (r: String)
    ensures
        is_random_uuid(r@),
{
    uuid::Uuid::new_v4().to_string()
}

/// The reply to a CONNECT request: whether it succeeded, and no bound address.
pub open spec fn connect_reply(success: bool) -> Seq<u8> {
    seq![
        SOCKS_VERSION,
        if success {
            0u8
        } else {
            1u8
        },
        0u8,
        1u8,
        0u8,
        0u8,
        0u8,
        0u8,
        0u8,
        0u8,
    ]
}

/// Writes the reply to a CONNECT request.
pub fn write_connect_reply(success: bool) -> (r: Vec<u8>)
    ensures
        r@ == connect_reply(success),
        r@ == seq![
            5u8,
            if success {
                0u8
            } else {
                1u8
            },
            0u8,
            1u8,
            0u8,
            0u8,
            0u8,
            0u8,
            0u8,
            0u8,
        ],
{
    let status: u8 = if success {
        0
    } else {
        1
    };
    let reply = vec![SOCKS_VERSION, status, 0u8, 1u8, 0u8, 0u8, 0u8, 0u8, 0u8, 0u8];
    assert(reply@ =~= connect_reply(success));
    reply
}

/// How far a session has come.
#[derive(Debug, PartialEq, Eq)]
#[allow(inconsistent_fields)]
pub enum SessionState {
    /// The handshake goes on.
    Handshake { state: HandshakeState },
    /// The request is being read.
    Request { username: Option<String>, state: RequestState },
    /// An agent is to be chosen.
    Selecting { username: Option<String>, target: ConnectTarget },
    /// An agent has been asked to connect.
    Connecting,
    /// The client has been told that it is connected; data goes both ways from now on.
    Relaying,
    /// The session is over.
    Closed,
}

/// What a [`SessionState`] stands for.
#[allow(inconsistent_fields)]
pub enum SessionView {
    Handshake { state: HandshakeView },
    Request { username: Option<Seq<char>>, state: RequestView },
    Selecting { username: Option<Seq<char>>, target: TargetView },
    Connecting,
    Relaying,
    Closed,
}

impl View for SessionState {
    type V = SessionView;

    open spec fn view(&self) -> SessionView {
        match *self {
            SessionState::Handshake { state } => SessionView::Handshake { state: state@ },
            SessionState::Request { username, state } => SessionView::Request {
                username: optional_text(username),
                state: state@,
            },
            SessionState::Selecting { username, target } => SessionView::Selecting {
                username: optional_text(username),
                target: target@,
            },
            SessionState::Connecting => SessionView::Connecting,
            SessionState::Relaying => SessionView::Relaying,
            SessionState::Closed => SessionView::Closed,
        }
    }
}

/// What can happen in a session.
pub enum SessionEvent {
    /// The bytes that the session waits for have arrived.
    Received(Seq<u8>),
    /// An agent has been chosen.
    Chosen,
    /// No agent can be chosen.
    Refused(SelectError),
    /// The connection request to the agent has come to an end.
    Answered(Result<PayloadView, ConnectError>),
    /// The client is gone.
    Lost,
}

/// Whether an agent reports that it has connected.
pub open spec fn agent_connected(answer: Result<PayloadView, ConnectError>) -> bool {
    answer matches Ok(PayloadView::ConnectResponse { success, .. }) && success
}

impl SessionView {
    /// Where a session begins.
    pub open spec fn start() -> SessionView {
        SessionView::Handshake { state: HandshakeView::Greeting }
    }

    /// The number of bytes that the session waits for.
    pub open spec fn needed(self) -> nat {
        match self {
            SessionView::Handshake { state } => state.needed(),
            SessionView::Request { state, .. } => state.needed(),
            _ => 0,
        }
    }

    /// Whether the session waits for bytes from the client.
    pub open spec fn is_reading(self) -> bool {
        self is Handshake || self is Request
    }

    /// What is wrong with the bytes that the session waits for, if anything is.
    pub open spec fn input_error(self, input: Seq<u8>) -> Option<InputError> {
        match self {
            SessionView::Handshake { state } => match state.advance(input) {
                Err(e) => Some(InputError::Handshake(e)),
                Ok(_) => None,
            },
            SessionView::Request { state, .. } => match state.advance(input) {
                Err(e) => Some(InputError::Request(e)),
                Ok(_) => None,
            },
            _ => None,
        }
    }

    /// The state that an event leads to, and the bytes that are sent to the client.
    pub open spec fn step(self, event: SessionEvent) -> (SessionView, Seq<u8>) {
        let silent = Seq::<u8>::empty();
        match (self, event) {
            (SessionView::Handshake { state }, SessionEvent::Received(input)) => match state.advance(
                input,
            ) {
                Err(_) => (SessionView::Closed, silent),
                Ok((HandshakeView::Done { username }, reply)) => (
                    SessionView::Request { username, state: RequestView::Header },
                    reply,
                ),
                Ok((next, reply)) => (SessionView::Handshake { state: next }, reply),
            },
            (SessionView::Request { username, state }, SessionEvent::Received(input)) =>
                match state.advance(input) {
                Err(_) => (SessionView::Closed, silent),
                Ok(RequestView::Done { target }) => (
                    SessionView::Selecting { username, target },
                    silent,
                ),
                Ok(next) => (SessionView::Request { username, state: next }, silent),
            },
            (SessionView::Selecting { .. }, SessionEvent::Chosen) => (
                SessionView::Connecting,
                silent,
            ),
            (SessionView::Selecting { .. }, SessionEvent::Refused(_)) => (
                SessionView::Closed,
                connect_reply(false),
            ),
            (SessionView::Connecting, SessionEvent::Answered(answer)) => if agent_connected(
                answer,
            ) {
                (SessionView::Relaying, connect_reply(true))
            } else {
                (SessionView::Closed, connect_reply(false))
            },
            (SessionView::Relaying, _) => (self, silent),
            (_, SessionEvent::Lost) => (SessionView::Closed, silent),
            _ => (self, silent),
        }
    }

    /// The state that a series of events leads to, and all that is sent to the client.
    pub open spec fn run(self, events: Seq<SessionEvent>) -> (SessionView, Seq<u8>)
        decreases events.len(),
    {
        if events.len() == 0 {
            (self, Seq::empty())
        } else {
            let (next, sent) = self.step(events[0]);
            let (last, more) = next.run(events.skip(1));
            (last, sent + more)
        }
    }
}

/// What is wrong with a client's input.
#[derive(Debug, Clone, Copy, PartialEq, Eq, Structural)]
pub enum InputError {
    Handshake(HandshakeError),
    Request(RequestError),
}

/// In words, what is wrong with a client's input.
pub open spec fn input_error_text(error: InputError) -> Seq<char> {
    match error {
        InputError::Handshake(e) => handshake_error_text(e),
        InputError::Request(e) => request_error_text(e),
    }
}

impl InputError {
    /// In words, what is wrong with the client's input.
    pub fn message(&self) -> (r: String)
        ensures
            r@ == input_error_text(*self),
            *self matches InputError::Handshake(e) ==> r@ == handshake_error_text(e),
            *self matches InputError::Request(e) ==> r@ == request_error_text(e),
    {
        match self {
            InputError::Handshake(e) => e.message(),
            InputError::Request(e) => e.message(),
        }
    }
}

/// The next state of a session and the bytes to send to the client.
#[derive(Debug, PartialEq, Eq)]
pub struct SessionStep {
    pub state: SessionState,
    pub reply: Vec<u8>,
}

/// What comes of choosing an agent.
#[derive(Debug, PartialEq, Eq)]
pub enum Opening {
    /// The agent is to be sent a connection request for the target.
    Forward { state: SessionState, request_id: String, agent: Candidate, target: ConnectTarget },
    /// The client is to be sent `reply`.
    Refused { state: SessionState, reason: SelectError, reply: Vec<u8> },
}

impl SessionState {
    /// Where a session begins.
    pub fn start() -> (r: Self)
        ensures
            r@ == SessionView::start(),
    {
        SessionState::Handshake { state: HandshakeState::Greeting }
    }

    /// Whether the session waits for bytes from the client.
    pub fn is_reading(&self) -> (r: bool)
        ensures
            r == self@.is_reading(),
    {
        match self {
            SessionState::Handshake { .. } => true,
            SessionState::Request { .. } => true,
            _ => false,
        }
    }

    /// The number of bytes to read from the client.
    pub fn needed(&self) -> (r: usize)
        ensures
            r == self@.needed(),
    {
        match self {
            SessionState::Handshake { state } => state.needed(),
            SessionState::Request { state, .. } => state.needed(),
            _ => 0,
        }
    }

    /// Takes the bytes that the session waits for. An error ends the session.
    pub fn receive(self, input: Vec<u8>) -> (r: Result<SessionStep, InputError>)
        requires
            self@.is_reading(),
            input@.len() == self@.needed(),
        ensures
            match r {
                Ok(next) => {
                    &&& self@.input_error(input@) is None
                    &&& (next.state@, next.reply@) == self@.step(SessionEvent::Received(input@))
                },
                Err(e) => {
                    &&& self@.input_error(input@) == Some(e)
                    &&& self@.step(SessionEvent::Received(input@)) == (
                        SessionView::Closed,
                        Seq::<u8>::empty(),
                    )
                },
            },
    {
        match self {
            SessionState::Handshake { state } => match state.advance(input) {
                Err(e) => Err(InputError::Handshake(e)),
                Ok(step) => match step.state {
                    HandshakeState::Done { username } => Ok(
                        SessionStep {
                            state: SessionState::Request { username, state: RequestState::Header },
                            reply: step.reply,
                        },
                    ),
                    next => Ok(
                        SessionStep {
                            state: SessionState::Handshake { state: next },
                            reply: step.reply,
                        },
                    ),
                },
            },
            SessionState::Request { username, state } => match state.advance(input) {
                Err(e) => Err(InputError::Request(e)),
                Ok(RequestState::Done { target }) => Ok(
                    SessionStep {
                        state: SessionState::Selecting { username, target },
                        reply: Vec::new(),
                    },
                ),
                Ok(next) => Ok(
                    SessionStep {
                        state: SessionState::Request { username, state: next },
                        reply: Vec::new(),
                    },
                ),
            },
            other => Ok(SessionStep { state: other, reply: Vec::new() }),
        }
    }

    /// Chooses an agent for the client, and gives its request an identifier.
    pub fn open(self, agents: &AgentMap) -> (r: Opening)
        requires
            self@ is Selecting,
        ensures
            match r {
                Opening::Forward { state, request_id, agent, target } => {
                    &&& self@ matches SessionView::Selecting { username, target: wanted }
                    &&& selection_error(agents@, selector_of(username)) is None
                    &&& is_candidate(agents@, selector_of(username), agent@)
                    &&& is_random_uuid(request_id@)
                    &&& target@ == wanted
                    &&& (state@, Seq::<u8>::empty()) == self@.step(SessionEvent::Chosen)
                    &&& state == SessionState::Connecting
                    &&& self matches SessionState::Selecting { target: asked, .. }
                    &&& target == asked
                },
                Opening::Refused { state, reason, reply } => {
                    &&& self@ matches SessionView::Selecting { username, .. }
                    &&& selection_error(agents@, selector_of(username)) == Some(reason)
                    &&& (state@, reply@) == self@.step(SessionEvent::Refused(reason))
                    &&& state == SessionState::Closed
                    &&& reply@ == connect_reply(false)
                },
            },
    {
        match self {
            SessionState::Selecting { username, target } => match agents.select_agent(&username) {
                Ok(agent) => Opening::Forward {
                    state: SessionState::Connecting,
                    request_id: random_uuid(),
                    agent,
                    target,
                },
                Err(reason) => Opening::Refused {
                    state: SessionState::Closed,
                    reason,
                    reply: write_connect_reply(false),
                },
            },
            other => Opening::Refused {
                state: other,
                reason: SelectError::InvalidUsername,
                reply: Vec::new(),
            },
        }
    }

    /// Answers the client once its connection request has come to an end.
    pub fn conclude(self, answer: &Result<Payload, ConnectError>) -> (r: SessionStep)
        requires
            self@ is Connecting,
        ensures
            (r.state@, r.reply@) == self@.step(SessionEvent::Answered(answer_view(*answer))),
            r.state == if *answer matches Ok(Payload::ConnectResponse { success: true, .. }) {
                SessionState::Relaying
            } else {
                SessionState::Closed
            },
            r.reply@ == connect_reply(
                *answer matches Ok(Payload::ConnectResponse { success: true, .. }),
            ),
    {
        let connected = match answer {
            Ok(Payload::ConnectResponse { success, .. }) => *success,
            _ => false,
        };
        SessionStep {
            state: if connected {
                SessionState::Relaying
            } else {
                SessionState::Closed
            },
            reply: write_connect_reply(connected),
        }
    }
}

/// What an agent's answer, or the lack of one, says.
pub open spec fn answer_view(answer: Result<Payload, ConnectError>) -> Result<
    PayloadView,
    ConnectError,
> {
    match answer {
        Ok(payload) => Ok(payload@),
        Err(e) => Err(e),
    }
}

/// A client is only connected through an agent that reports success, and is told so at that
/// moment.
pub proof fn law_relay_needs_agent_success(state: SessionView, event: SessionEvent)
    requires
        state !is Relaying,
        state.step(event).0 is Relaying,
    ensures
        state is Connecting,
        event matches SessionEvent::Answered(answer) && agent_connected(answer),
        state.step(event).1 == connect_reply(true),
{
}

/// A client that gets no agent, and a client whose agent does not report success, is told that
/// its request failed, and its session is over.
pub proof fn law_failure_is_answered(state: SessionView, event: SessionEvent)
    requires
        ({
            ||| state is Selecting && event is Refused
            ||| state is Connecting && (event matches SessionEvent::Answered(a)
                && !agent_connected(a))
        }),
    ensures
        state.step(event) == (SessionView::Closed, connect_reply(false)),
{
}

/// A malformed handshake or request ends the session without a word.
pub proof fn law_malformed_input_is_not_answered(state: SessionView, input: Seq<u8>)
    requires
        state.input_error(input) is Some,
    ensures
        state.step(SessionEvent::Received(input)) == (SessionView::Closed, Seq::<u8>::empty()),
{
}

/// A session that is over, or that relays, sends nothing more and stays as it is.
pub proof fn law_session_end_is_final(state: SessionView, events: Seq<SessionEvent>)
    requires
        state is Closed || state is Relaying,
    ensures
        state.run(events) == (state, Seq::<u8>::empty()),
    decreases events.len(),
{
    if events.len() > 0 {
        law_session_end_is_final(state, events.skip(1));
        assert(Seq::<u8>::empty() + Seq::<u8>::empty() =~= Seq::<u8>::empty());
    }
}

/// Once the handshake is done, whatever happens, a client is sent at most one reply: success if
/// and only if the session comes to relay, and failure only if the session is over.
pub proof fn law_one_reply_per_request(state: SessionView, events: Seq<SessionEvent>)
    requires
        state is Request || state is Selecting || state is Connecting,
    ensures
        ({
            let (last, sent) = state.run(events);
            &&& sent == Seq::<u8>::empty() || sent == connect_reply(true) || sent == connect_reply(
                false,
            )
            &&& sent == connect_reply(true) <==> last is Relaying
            &&& sent == connect_reply(false) ==> last is Closed
        }),
    decreases events.len(),
{
    assert(connect_reply(true)[1] != connect_reply(false)[1]);
    assert(connect_reply(true).len() == 10);
    if events.len() > 0 {
        let (next, sent) = state.step(events[0]);
        let rest = events.skip(1);
        if next is Closed || next is Relaying {
            law_session_end_is_final(next, rest);
            assert(sent + Seq::<u8>::empty() =~= sent);
        } else {
            law_one_reply_per_request(next, rest);
            assert(sent == Seq::<u8>::empty());
            assert(sent + next.run(rest).1 =~= next.run(rest).1);
        }
    }
}

/// How the reading of a client's input ends.
pub enum IntakeEnd {
    /// The input stops before the request does.
    Unfinished,
    /// The input is malformed.
    Failed(InputError),
    /// The request is complete and `rest` is left over.
    Complete { username: Option<Seq<char>>, target: TargetView, rest: Seq<u8> },
}

/// The reading of a client's input: what is sent on the way, and how it ends.
pub struct Intake {
    pub sent: Seq<u8>,
    pub end: IntakeEnd,
}

impl SessionView {
    /// The number of steps that reading takes at most.
    pub open spec fn steps_left(self) -> nat {
        match self {
            SessionView::Handshake { state } => 6 + state.steps_left(),
            SessionView::Request { state, .. } => 1 + state.steps_left(),
            _ => 0,
        }
    }

    /// What comes of feeding `input`, piece by piece, from this state on.
    pub open spec fn feed(self, input: Seq<u8>) -> Intake
        decreases self.steps_left(),
    {
        let silent = Seq::<u8>::empty();
        let n = self.needed() as int;
        match self {
            SessionView::Selecting { username, target } => Intake {
                sent: silent,
                end: IntakeEnd::Complete { username, target, rest: input },
            },
            _ => if !self.is_reading() || input.len() < n {
                Intake { sent: silent, end: IntakeEnd::Unfinished }
            } else {
                match self.input_error(input.take(n)) {
                    Some(e) => Intake { sent: silent, end: IntakeEnd::Failed(e) },
                    None => {
                        let (next, reply) = self.step(SessionEvent::Received(input.take(n)));
                        if next.steps_left() < self.steps_left() {
                            let more = next.feed(input.skip(n));
                            Intake { sent: reply + more.sent, end: more.end }
                        } else {
                            Intake { sent: reply, end: IntakeEnd::Unfinished }
                        }
                    },
                }
            },
        }
    }
}

/// What follows the handshake: the request.
pub open spec fn request_intake(username: Option<Seq<char>>, input: Seq<u8>) -> IntakeEnd {
    match connect_request(input) {
        RequestEnd::Unfinished => IntakeEnd::Unfinished,
        RequestEnd::Failed(e) => IntakeEnd::Failed(InputError::Request(e)),
        RequestEnd::Complete { target, rest } => IntakeEnd::Complete { username, target, rest },
    }
}

/// A client's input as a grammar: the handshake, and the request after it.
pub open spec fn client_input(input: Seq<u8>) -> Intake {
    let run = handshake(input);
    let end = match run.end {
        HandshakeEnd::Unfinished => IntakeEnd::Unfinished,
        HandshakeEnd::Failed(e) => IntakeEnd::Failed(InputError::Handshake(e)),
        HandshakeEnd::Complete { username, rest } => request_intake(username, rest),
    };
    Intake { sent: run.sent, end }
}

proof fn lemma_feed_request(username: Option<Seq<char>>, state: RequestView, input: Seq<u8>)
    requires
        state !is Done,
    ensures
        ({
            let fed = (SessionView::Request { username, state }).feed(input);
            &&& fed.sent == Seq::<u8>::empty()
            &&& fed.end == match state.run(input) {
                RequestEnd::Unfinished => IntakeEnd::Unfinished,
                RequestEnd::Failed(e) => IntakeEnd::Failed(InputError::Request(e)),
                RequestEnd::Complete { target, rest } => IntakeEnd::Complete {
                    username,
                    target,
                    rest,
                },
            }
        }),
    decreases state.steps_left(),
{
    let n = state.needed() as int;
    let session = SessionView::Request { username, state };
    if input.len() >= n {
        match state.advance(input.take(n)) {
            Err(_) => {},
            Ok(next) => {
                let rest = input.skip(n);
                let (after, reply) = session.step(SessionEvent::Received(input.take(n)));
                assert(after.steps_left() < session.steps_left());
                assert(reply + after.feed(rest).sent =~= after.feed(rest).sent);
                match next {
                    RequestView::Done { target } => {
                        assert(state.run(input) == next.run(rest));
                    },
                    _ => {
                        lemma_feed_request(username, next, rest);
                    },
                }
            },
        }
    }
}

proof fn lemma_feed_handshake(state: HandshakeView, input: Seq<u8>)
    requires
        state !is Done,
    ensures
        ({
            let fed = (SessionView::Handshake { state }).feed(input);
            let run = state.run(input);
            &&& fed.sent == run.sent
            &&& fed.end == match run.end {
                HandshakeEnd::Unfinished => IntakeEnd::Unfinished,
                HandshakeEnd::Failed(e) => IntakeEnd::Failed(InputError::Handshake(e)),
                HandshakeEnd::Complete { username, rest } => request_intake(username, rest),
            }
        }),
    decreases state.steps_left(),
{
    let n = state.needed() as int;
    let session = SessionView::Handshake { state };
    if input.len() >= n {
        match state.advance(input.take(n)) {
            Err(_) => {},
            Ok((next, reply)) => {
                let rest = input.skip(n);
                let (after, sent) = session.step(SessionEvent::Received(input.take(n)));
                assert(after.steps_left() < session.steps_left());
                match next {
                    HandshakeView::Done { username } => {
                        assert(state.run(input) == next.run(rest).after(reply));
                        lemma_feed_request(username, RequestView::Header, rest);
                        law_request_follows_grammar(rest);
                        assert(reply + Seq::<u8>::empty() =~= reply);
                    },
                    _ => {
                        lemma_feed_handshake(next, rest);
                    },
                }
            },
        }
    }
}

/// Whatever a client sends, the session reads it as the grammar says, up to the point where an
/// agent is to be chosen.
pub proof fn law_session_follows_grammar(input: Seq<u8>)
    ensures
        SessionView::start().feed(input) == client_input(input),
{
    lemma_feed_handshake(HandshakeView::Greeting, input);
    law_handshake_follows_grammar(input);
}

/// The reply to a CONNECT request has ten bytes: the version, the outcome, and an address that
/// says nothing. The outcome is zero for a success and one for a failure.
pub proof fn law_reply_tells_the_outcome(success: bool)
    ensures
        connect_reply(success).len() == 10,
        connect_reply(success)[0] == 5,
        connect_reply(success)[1] == 0 <==> success,
        connect_reply(success)[1] == 1 <==> !success,
        connect_reply(success)[3] == 1,
        forall|i: int|
            0 <= i < 10 && i != 0 && i != 1 && i != 3 ==> connect_reply(success)[i] == 0,
{
}

/// Once an agent has been asked, its answer is all that matters: a client whose agent reports
/// success is connected and told so, and any other answer, or none, ends the session with a failure.
pub proof fn law_answer_decides_the_session(answer: Result<PayloadView, ConnectError>)
    ensures
        match answer {
            Ok(PayloadView::ConnectResponse { success, .. }) => {
                &&& agent_connected(answer) == success
                &&& SessionView::Connecting.step(SessionEvent::Answered(answer)) == if success {
                    (SessionView::Relaying, connect_reply(true))
                } else {
                    (SessionView::Closed, connect_reply(false))
                }
            },
            _ => {
                &&& !agent_connected(answer)
                &&& SessionView::Connecting.step(SessionEvent::Answered(answer)) == (
                    SessionView::Closed,
                    connect_reply(false),
                )
            },
        },
{
}

/// A client for which an agent has been chosen waits for the agent without being told anything; a
/// client that goes before it is connected ends its session.
pub proof fn law_waiting_is_silent(
    username: Option<Seq<char>>,
    target: TargetView,
    state: SessionView,
)
    ensures
        (SessionView::Selecting { username, target }).step(SessionEvent::Chosen) == (
            SessionView::Connecting,
            Seq::<u8>::empty(),
        ),
        state !is Relaying ==> state.step(SessionEvent::Lost) == (
            SessionView::Closed,
            Seq::<u8>::empty(),
        ),
{
}

/// A client that authenticates and then sends a request is heard out: an agent is chosen for the
/// username that it gave, and the request is for the target that it asked for.
pub proof fn law_authenticated_request_is_heard(
    methods: Seq<u8>,
    username: Seq<char>,
    password: Seq<u8>,
    request: Seq<u8>,
    target: TargetView,
    rest: Seq<u8>,
)
    requires
        methods.len() <= 255,
        methods.contains(2u8),
        vstd::utf8::encode_utf8(username).len() <= 255,
        password.len() <= 255,
        RequestView::Header.run(request) == (RequestEnd::Complete { target, rest }),
    ensures
        SessionView::start().feed(
            greeting_message(methods) + auth_message(username, password) + request,
        ) == (Intake {
            sent: seq![5u8, 2u8, 1u8, 0u8],
            end: IntakeEnd::Complete { username: Some(username), target, rest },
        }),
{
    let input = greeting_message(methods) + auth_message(username, password) + request;
    law_session_follows_grammar(input);
    law_handshake_follows_grammar(input);
    law_request_follows_grammar(request);
    law_any_password_is_accepted(methods, username, password, request);
}

/// A client that does not authenticate and then sends a request is heard out: an agent is chosen
/// without a username, and the request is for the target that it asked for.
pub proof fn law_plain_request_is_heard(
    methods: Seq<u8>,
    request: Seq<u8>,
    target: TargetView,
    rest: Seq<u8>,
)
    requires
        methods.len() <= 255,
        !methods.contains(2u8),
        RequestView::Header.run(request) == (RequestEnd::Complete { target, rest }),
    ensures
        SessionView::start().feed(greeting_message(methods) + request) == (Intake {
            sent: seq![5u8, 0u8],
            end: IntakeEnd::Complete { username: None, target, rest },
        }),
{
    let input = greeting_message(methods) + request;
    law_session_follows_grammar(input);
    law_handshake_follows_grammar(input);
    law_request_follows_grammar(request);
    law_no_authentication_without_offer(methods, request);
}

} // verus!
