//! Requests that wait for an agent's answer, and the delivery of answers.

use vstd::prelude::*;

use crate::payload::{Payload, PayloadView};
use crate::request_map::RequestMap;
use crate::target::{ConnectTarget, TargetView};
use crate::text::labelled;

verus! {

/// The channel on which a request waits: for the one answer to a connection request, or for the
/// stream of data that follows.
#[derive(Debug)]
pub enum PendingSender<O, M> {
    Oneshot(O),
    Mpsc(M),
}

/// The channels of the requests that wait, by request identifier.
pub type PendingMap<O, M> = RequestMap<PendingSender<O, M>>;

/// Where an answer to a connection request goes.
#[derive(Debug)]
pub enum ConnectDelivery<O> {
    /// To the request that waits for it.
    Deliver { channel: O, payload: Payload },
    /// The request waits for data instead.
    WrongChannel,
    /// No such request waits.
    NotPending,
    /// It is no answer to a connection request.
    Unexpected,
}

/// The request that an answer to a connection request is for.
pub open spec fn answered_request_id(payload: PayloadView) -> Option<Seq<char>> {
    match payload {
        PayloadView::ConnectResponse { request_id, .. } => Some(request_id),
        _ => None,
    }
}

/// The channel that an answer to a connection request is delivered on.
pub open spec fn answer_channel<O, M>(
    pending: Map<Seq<char>, PendingSender<O, M>>,
    payload: PayloadView,
) -> Option<O> {
    match answered_request_id(payload) {
        Some(id) => if pending.contains_key(id) {
            match pending[id] {
                PendingSender::Oneshot(channel) => Some(channel),
                PendingSender::Mpsc(_) => None,
            }
        } else {
            None
        },
        None => None,
    }
}

/// The requests that still wait after an answer to a connection request has arrived.
pub open spec fn pending_after_answer<O, M>(
    pending: Map<Seq<char>, PendingSender<O, M>>,
    payload: PayloadView,
) -> Map<Seq<char>, PendingSender<O, M>> {
    match answered_request_id(payload) {
        Some(id) => pending.remove(id),
        None => pending,
    }
}

/// Hands an answer to a connection request to the request that waits for it, which then waits no
/// longer.
pub fn handle_connect_response<O, M>(payload: Payload, pending: &mut PendingMap<O, M>) -> (r:
    ConnectDelivery<O>)
    ensures
        final(pending)@ == pending_after_answer(old(pending)@, payload@),
        match payload {
            Payload::ConnectResponse { request_id, .. } => {
                &&& final(pending)@ == old(pending)@.remove(request_id@)
                &&& if old(pending)@.contains_key(request_id@) {
                    match old(pending)@[request_id@] {
                        PendingSender::Oneshot(waiting) => r == (ConnectDelivery::Deliver {
                            channel: waiting,
                            payload,
                        }),
                        PendingSender::Mpsc(_) => r is WrongChannel,
                    }
                } else {
                    r is NotPending
                }
            },
            _ => r is Unexpected && final(pending)@ == old(pending)@,
        },
        match r {
            ConnectDelivery::Deliver { channel, payload: answer } => {
                &&& answer_channel(old(pending)@, payload@) == Some(channel)
                &&& answer == payload
            },
            ConnectDelivery::WrongChannel => {
                &&& answered_request_id(payload@) matches Some(id)
                &&& old(pending)@.contains_key(id)
                &&& old(pending)@[id] is Mpsc
            },
            ConnectDelivery::NotPending => {
                &&& answered_request_id(payload@) matches Some(id)
                &&& !old(pending)@.contains_key(id)
            },
            ConnectDelivery::Unexpected => answered_request_id(payload@) is None,
        },
{
    let found = match &payload {
        Payload::ConnectResponse { request_id, .. } => pending.remove(request_id.as_str()),
        _ => return ConnectDelivery::Unexpected,
    };
    match found {
        Some(PendingSender::Oneshot(channel)) => ConnectDelivery::Deliver { channel, payload },
        Some(PendingSender::Mpsc(_)) => ConnectDelivery::WrongChannel,
        None => ConnectDelivery::NotPending,
    }
}

/// Where data from an agent goes.
#[derive(Debug)]
pub enum DataDelivery<'a, M> {
    /// To the request that waits for it.
    Deliver { channel: &'a M, payload: Payload },
    /// The request still waits for the answer to its connection request.
    WrongChannel,
    /// No such request waits.
    NotPending,
    /// It is no data.
    Unexpected,
}

/// The request that data from an agent is for.
pub open spec fn data_request_id(payload: PayloadView) -> Option<Seq<char>> {
    match payload {
        PayloadView::DataResponseChunk { request_id, .. } => Some(request_id),
        PayloadView::DataResponseTransferComplete { request_id, .. } => Some(request_id),
        _ => None,
    }
}

/// The channel that data from an agent is delivered on.
pub open spec fn data_channel<O, M>(
    pending: Map<Seq<char>, PendingSender<O, M>>,
    payload: PayloadView,
) -> Option<M> {
    match data_request_id(payload) {
        Some(id) => if pending.contains_key(id) {
            match pending[id] {
                PendingSender::Mpsc(channel) => Some(channel),
                PendingSender::Oneshot(_) => None,
            }
        } else {
            None
        },
        None => None,
    }
}

/// Hands data from an agent, or the end of it, to the request that waits for it.
pub fn handle_data_response<'a, O, M>(payload: Payload, pending: &'a PendingMap<O, M>) -> (r:
    DataDelivery<'a, M>)
    ensures
        match payload {
            Payload::DataResponseChunk { request_id, .. }
            | Payload::DataResponseTransferComplete { request_id, .. } => if pending@.contains_key(
                request_id@,
            ) {
                match pending@[request_id@] {
                    PendingSender::Mpsc(waiting) => r == (DataDelivery::Deliver {
                        channel: &waiting,
                        payload,
                    }),
                    PendingSender::Oneshot(_) => r is WrongChannel,
                }
            } else {
                r is NotPending
            },
            _ => r is Unexpected,
        },
        match r {
            DataDelivery::Deliver { channel, payload: data } => {
                &&& data_channel(pending@, payload@) == Some(*channel)
                &&& data == payload
            },
            DataDelivery::WrongChannel => {
                &&& data_request_id(payload@) matches Some(id)
                &&& pending@.contains_key(id)
                &&& pending@[id] is Oneshot
            },
            DataDelivery::NotPending => {
                &&& data_request_id(payload@) matches Some(id)
                &&& !pending@.contains_key(id)
            },
            DataDelivery::Unexpected => data_request_id(payload@) is None,
        },
{
    let found = match &payload {
        Payload::DataResponseChunk { request_id, .. } => pending.get(request_id.as_str()),
        Payload::DataResponseTransferComplete { request_id, .. } => pending.get(
            request_id.as_str(),
        ),
        _ => return DataDelivery::Unexpected,
    };
    match found {
        Some(PendingSender::Mpsc(channel)) => DataDelivery::Deliver { channel, payload },
        Some(PendingSender::Oneshot(_)) => DataDelivery::WrongChannel,
        None => DataDelivery::NotPending,
    }
}

/// The connection request for a target.
pub open spec fn connect_request_payload(request_id: Seq<char>, target: TargetView) -> PayloadView {
    PayloadView::ConnectRequest {
        request_id,
        target_addr: target.target_addr,
        target_port: target.target_port,
        agent_id: None,
        address_type: target.address_type,
    }
}

/// Makes a request wait on `channel` for the answer to its connection request, which is
/// returned.
pub fn send_connect_request<O, M>(
    request_id: &str,
    target: &ConnectTarget,
    channel: O,
    pending: &mut PendingMap<O, M>,
) -> (r: Payload)
    ensures
        r@ == connect_request_payload(request_id@, target@),
        match r {
            Payload::ConnectRequest {
                request_id: id,
                target_addr,
                target_port,
                agent_id,
                address_type,
            } => {
                &&& id@ == request_id@
                &&& target_addr@ == target.target_addr@
                &&& target_port == target.target_port
                &&& agent_id is None
                &&& address_type == target.address_type
            },
            _ => false,
        },
        final(pending)@ == old(pending)@.insert(request_id@, PendingSender::Oneshot(channel)),
{
    pending.insert(request_id.to_owned(), PendingSender::Oneshot(channel));
    Payload::ConnectRequest {
        request_id: request_id.to_owned(),
        target_addr: target.target_addr.clone(),
        target_port: target.target_port,
        agent_id: None,
        address_type: target.address_type,
    }
}

/// What became of a connection request.
#[derive(Debug)]
pub enum ConnectOutcome {
    /// It could not be sent to the agent, for the reason given.
    NotSent { reason: String },
    /// An answer arrived.
    Answered(Payload),
    /// The channel was closed before an answer arrived.
    ChannelClosed,
    /// The time was up before an answer arrived.
    TimedOut,
}

/// Why a connection request has no answer.
#[derive(Debug, PartialEq, Eq)]
pub enum ConnectError {
    /// It could not be sent to the agent, for the reason given.
    NotSent { reason: String },
    /// The channel was closed before an answer arrived.
    ChannelClosed,
    /// The time was up before an answer arrived.
    TimedOut,
}

/// In words, why a connection request to an agent has no answer.
pub open spec fn connect_error_text(error: ConnectError, agent_id: Seq<char>) -> Seq<char> {
    match error {
        ConnectError::NotSent { reason } => reason@,
        ConnectError::ChannelClosed => "Oneshot receiver error: RecvError(())"@,
        ConnectError::TimedOut => "Timeout waiting for connect response from agent "@ + agent_id,
    }
}

impl ConnectError {
    /// In words, why the connection request to the agent has no answer.
    pub fn message(&self, agent_id: &str) -> (r: String)
        ensures
            r@ == connect_error_text(*self, agent_id@),
            *self is TimedOut ==> r@ == "Timeout waiting for connect response from agent "@
                + agent_id@,
            *self matches ConnectError::NotSent { reason } ==> r@ == reason@,
            *self is ChannelClosed ==> r@ == "Oneshot receiver error: RecvError(())"@,
    {
        match self {
            ConnectError::NotSent { reason } => reason.clone(),
            ConnectError::ChannelClosed => "Oneshot receiver error: RecvError(())".to_owned(),
            ConnectError::TimedOut => labelled(
                "Timeout waiting for connect response from agent ",
                agent_id,
            ),
        }
    }
}

/// Ends the wait for the answer to a connection request. Where the time is up, the request waits
/// no longer.
pub fn wait_for_response<O, M>(
    request_id: &str,
    outcome: ConnectOutcome,
    pending: &mut PendingMap<O, M>,
) -> (r: Result<Payload, ConnectError>)
    ensures
        match outcome {
            ConnectOutcome::NotSent { reason } => r == Err::<Payload, _>(
                ConnectError::NotSent { reason },
            ),
            ConnectOutcome::Answered(payload) => r == Ok::<_, ConnectError>(payload),
            ConnectOutcome::ChannelClosed => r == Err::<Payload, _>(ConnectError::ChannelClosed),
            ConnectOutcome::TimedOut => r == Err::<Payload, _>(ConnectError::TimedOut),
        },
        final(pending)@ == if outcome is TimedOut {
            old(pending)@.remove(request_id@)
        } else {
            old(pending)@
        },
{
    match outcome {
        ConnectOutcome::NotSent { reason } => Err(ConnectError::NotSent { reason }),
        ConnectOutcome::Answered(payload) => Ok(payload),
        ConnectOutcome::ChannelClosed => Err(ConnectError::ChannelClosed),
        ConnectOutcome::TimedOut => {
            pending.remove(request_id);
            Err(ConnectError::TimedOut)
        },
    }
}

/// Makes a request wait on `channel` for data.
pub fn begin_data_transfer<O, M>(
    request_id: &str,
    channel: M,
    pending: &mut PendingMap<O, M>,
)
    ensures
        final(pending)@ == old(pending)@.insert(request_id@, PendingSender::Mpsc(channel)),
{
    pending.insert(request_id.to_owned(), PendingSender::Mpsc(channel));
}

/// Makes a request wait no longer.
pub fn end_data_transfer<O, M>(request_id: &str, pending: &mut PendingMap<O, M>)
    ensures
        final(pending)@ == old(pending)@.remove(request_id@),
{
    pending.remove(request_id);
}

/// The answer to a connection request reaches the request that waits for it, and no second answer
/// does.
pub proof fn law_answer_is_delivered_once<O, M>(
    pending: Map<Seq<char>, PendingSender<O, M>>,
    request_id: Seq<char>,
    channel: O,
    success: bool,
    again: bool,
)
    ensures
        ({
            let waiting = pending.insert(request_id, PendingSender::Oneshot(channel));
            let first = PayloadView::ConnectResponse { request_id, success };
            let second = PayloadView::ConnectResponse { request_id, success: again };
            &&& answer_channel(waiting, first) == Some(channel)
            &&& answer_channel(pending_after_answer(waiting, first), second) is None
        }),
{
}

/// An answer, to whatever request, leaves every other request waiting as it was.
pub proof fn law_answer_leaves_others_waiting<O, M>(
    pending: Map<Seq<char>, PendingSender<O, M>>,
    payload: PayloadView,
    other: Seq<char>,
)
    requires
        answered_request_id(payload) != Some(other),
    ensures
        ({
            let after = pending_after_answer(pending, payload);
            &&& after.contains_key(other) <==> pending.contains_key(other)
            &&& pending.contains_key(other) ==> after[other] == pending[other]
        }),
{
}

/// While a request waits for data, the data that an agent sends for it, and the end of that
/// data, reach it, and what is sent for another request does not.
pub proof fn law_data_reaches_its_request<O, M>(
    pending: Map<Seq<char>, PendingSender<O, M>>,
    request_id: Seq<char>,
    channel: M,
    payload: PayloadView,
)
    requires
        data_request_id(payload) is Some,
    ensures
        ({
            let waiting = pending.insert(request_id, PendingSender::Mpsc(channel));
            if data_request_id(payload) == Some(request_id) {
                data_channel(waiting, payload) == Some(channel)
            } else {
                data_channel(waiting, payload) == data_channel(pending, payload)
            }
        }),
{
}

/// A request that has run its course waits no longer, and has changed nothing for the others:
/// it was asked for, answered, served with data, and ended; or the time was up.
pub proof fn law_request_leaves_no_trace<O, M>(
    pending: Map<Seq<char>, PendingSender<O, M>>,
    request_id: Seq<char>,
    answer_to: O,
    data_to: M,
    success: bool,
)
    requires
        !pending.contains_key(request_id),
    ensures
        ({
            let asked = pending.insert(request_id, PendingSender::Oneshot(answer_to));
            let answered = pending_after_answer(
                asked,
                PayloadView::ConnectResponse { request_id, success },
            );
            let served = answered.insert(request_id, PendingSender::Mpsc(data_to));
            &&& asked.remove(request_id) == pending
            &&& answered == pending
            &&& served.remove(request_id) == pending
        }),
{
    let asked = pending.insert(request_id, PendingSender::<O, M>::Oneshot(answer_to));
    let served = pending.insert(request_id, PendingSender::<O, M>::Mpsc(data_to));
    assert(asked.remove(request_id) =~= pending);
    assert(served.remove(request_id) =~= pending);
}

/// Only an answer to a connection request ends the wait for one, and only data from a target is
/// delivered as data. Any other message leaves every request waiting.
pub proof fn law_messages_are_delivered_by_kind<O, M>(
    pending: Map<Seq<char>, PendingSender<O, M>>,
    payload: PayloadView,
)
    ensures
        payload !is ConnectResponse ==> pending_after_answer(pending, payload) == pending
            && answer_channel(pending, payload) is None && answered_request_id(payload) is None,
        answered_request_id(payload) is Some <==> payload is ConnectResponse,
        data_request_id(payload) is Some <==> payload is DataResponseChunk || payload
            is DataResponseTransferComplete,
{
}

/// An answer goes to the request that it names, and to the channel on which that request waits for
/// it; data likewise.
pub proof fn law_messages_go_to_the_request_they_name<O, M>(
    pending: Map<Seq<char>, PendingSender<O, M>>,
    request_id: Seq<char>,
    success: bool,
    chunk_id: u32,
    data: Seq<char>,
    error_message: Option<Seq<char>>,
    o: O,
    m: M,
)
    ensures
        ({
            let answer = PayloadView::ConnectResponse { request_id, success };
            let chunk = PayloadView::DataResponseChunk { request_id, chunk_id, data };
            let end = PayloadView::DataResponseTransferComplete {
                request_id,
                success,
                error_message,
            };
            let asked = pending.insert(request_id, PendingSender::Oneshot(o));
            let served = pending.insert(request_id, PendingSender::Mpsc(m));
            let gone = pending.remove(request_id);
            &&& answer_channel(asked, answer) == Some(o)
            &&& answer_channel(served, answer) is None
            &&& answer_channel(gone, answer) is None
            &&& data_channel(served, chunk) == Some(m)
            &&& data_channel(served, end) == Some(m)
            &&& data_channel(asked, chunk) is None
            &&& data_channel(asked, end) is None
            &&& data_channel(gone, chunk) is None
            &&& data_channel(gone, end) is None
        }),
{
}

/// A connection request says which request it is for, and which host and port are wanted.
pub proof fn law_connection_request_says_the_target(request_id: Seq<char>, target: TargetView)
    ensures
        connect_request_payload(request_id, target) matches PayloadView::ConnectRequest {
            request_id: id,
            target_addr,
            target_port,
            agent_id,
            address_type,
        } && id == request_id && target_addr == target.target_addr && target_port
            == target.target_port && agent_id is None && address_type == target.address_type,
{
}

/// The text of a timeout names the agent, and differs from agent to agent.
pub proof fn law_timeout_names_the_agent(a: Seq<char>, b: Seq<char>)
    ensures
        a.is_suffix_of(connect_error_text(ConnectError::TimedOut, a)),
        connect_error_text(ConnectError::TimedOut, a) == connect_error_text(
            ConnectError::TimedOut,
            b,
        ) ==> a == b,
{
    reveal_strlit("Timeout waiting for connect response from agent ");
    let label = "Timeout waiting for connect response from agent "@;
    let (s, t) = (
        connect_error_text(ConnectError::TimedOut, a),
        connect_error_text(ConnectError::TimedOut, b),
    );
    assert(s.subrange(label.len() as int, s.len() as int) =~= a);
    assert(t.subrange(label.len() as int, t.len() as int) =~= b);
}

} // verus!
