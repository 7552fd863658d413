//! The master's side of a data transfer between a client and an agent.

use vstd::prelude::*;

use crate::payload::{optional_text, Payload, PayloadView};
use crate::transfer::{
    base64_bytes,
    base64_text,
    decode_chunk,
    joined,
    law_base64_is_read_back,
    lemma_joined_first,
    BadChunk,
    ChunkStream,
    ReadOutcome,
    ReadView,
    CHUNK_SIZE,
};

verus! {

/// What is sent to the agent after a read from the client, and whether that was the last read.
#[derive(Debug, PartialEq, Eq)]
pub struct ClientRead {
    pub payload: Option<Payload>,
    pub done: bool,
}

/// What is sent to the agent after a read from the client: a chunk, or word that the client has
/// gone, or nothing where the read failed.
pub open spec fn client_read_payload(
    request_id: Seq<char>,
    chunk_id: u32,
    read: ReadView,
) -> Option<PayloadView> {
    match read {
        ReadView::Bytes(bytes) => if bytes.len() == 0 {
            Some(PayloadView::ClientDisconnect { request_id })
        } else {
            Some(
                PayloadView::DataRequestChunk { request_id, chunk_id, data: base64_text(bytes) },
            )
        },
        ReadView::Failed(_) => None,
    }
}

/// Takes what came of reading from the client.
pub fn handle_client_read(stream: &mut ChunkStream, read: ReadOutcome) -> (r: ClientRead)
    requires
        read@ matches ReadView::Bytes(bytes) ==> bytes.len() <= CHUNK_SIZE,
        read@.brings_data() ==> old(stream).next_id() < u32::MAX,
    ensures
        final(stream).request() == old(stream).request(),
        final(stream).next_id() == if read@.brings_data() {
            old(stream).next_id() + 1
        } else {
            old(stream).next_id() as int
        },
        r.done == !read@.brings_data(),
        (match r.payload {
            Some(p) => Some(p@),
            None => None,
        }) == client_read_payload(old(stream).request(), old(stream).next_id(), read@),
        match read {
            ReadOutcome::Bytes(bytes) => if bytes@.len() == 0 {
                &&& r.done
                &&& r.payload matches Some(Payload::ClientDisconnect { request_id })
                &&& request_id@ == old(stream).request()
                &&& final(stream).next_id() == old(stream).next_id()
            } else {
                &&& !r.done
                &&& r.payload matches Some(
                    Payload::DataRequestChunk { request_id, chunk_id, data },
                )
                &&& request_id@ == old(stream).request()
                &&& chunk_id == old(stream).next_id()
                &&& data@ == base64_text(bytes@)
                &&& final(stream).next_id() == old(stream).next_id() + 1
            },
            ReadOutcome::Failed(_) => {
                &&& r.done
                &&& r.payload is None
                &&& final(stream).next_id() == old(stream).next_id()
            },
        },
{
    match read {
        ReadOutcome::Bytes(bytes) => {
            if bytes.len() == 0 {
                let request_id = stream.request_id().to_owned();
                return ClientRead {
                    payload: Some(Payload::ClientDisconnect { request_id }),
                    done: true,
                };
            }
            let chunk = stream.chunk(bytes.as_slice());
            ClientRead {
                payload: Some(
                    Payload::DataRequestChunk {
                        request_id: chunk.request_id,
                        chunk_id: chunk.chunk_id,
                        data: chunk.data,
                    },
                ),
                done: false,
            }
        },
        ReadOutcome::Failed(_) => ClientRead { payload: None, done: true },
    }
}

/// What is to be done about a message for the client.
#[derive(Debug)]
pub enum ClientWrite {
    /// The bytes are to be written to the client.
    Write(Vec<u8>),
    /// The chunk is not readable and is passed over.
    Skip(BadChunk),
    /// The message is of another kind and is passed over.
    Ignore,
    /// There is nothing more to write: the target is done, or has failed for the reason given.
    Finish { success: bool, error_message: Option<String> },
}

/// What a message for the client amounts to.
pub enum ClientWriteView {
    Write(Seq<u8>),
    Skip,
    Ignore,
    Finish { success: bool, error_message: Option<Seq<char>> },
}

impl View for ClientWrite {
    type V = ClientWriteView;

    open spec fn view(&self) -> ClientWriteView {
        match *self {
            ClientWrite::Write(bytes) => ClientWriteView::Write(bytes@),
            ClientWrite::Skip(_) => ClientWriteView::Skip,
            ClientWrite::Ignore => ClientWriteView::Ignore,
            ClientWrite::Finish { success, error_message } => ClientWriteView::Finish {
                success,
                error_message: optional_text(error_message),
            },
        }
    }
}

/// What is to be done about a message for the client: a readable chunk is written, the end of
/// the target's data ends the writing, and all else is passed over.
pub open spec fn client_write(payload: PayloadView) -> ClientWriteView {
    match payload {
        PayloadView::DataResponseChunk { data, .. } => match base64_bytes(data) {
            Some(bytes) => ClientWriteView::Write(bytes),
            None => ClientWriteView::Skip,
        },
        PayloadView::DataResponseTransferComplete { success, error_message, .. } =>
            ClientWriteView::Finish { success, error_message },
        _ => ClientWriteView::Ignore,
    }
}

/// Takes a message for the client.
pub fn handle_client_message(payload: Payload) -> (r: ClientWrite)
    ensures
        r@ == client_write(payload@),
        match payload {
            Payload::DataResponseChunk { data, .. } => match r {
                ClientWrite::Write(bytes) => base64_text(bytes@) == data@,
                ClientWrite::Skip(_) => forall|bytes: Seq<u8>| #[trigger]
                    base64_text(bytes) != data@,
                _ => false,
            },
            Payload::DataResponseTransferComplete { success, error_message, .. } => r == (
            ClientWrite::Finish { success, error_message }),
            _ => r is Ignore,
        },
{
    match payload {
        Payload::DataResponseChunk { data, .. } => match decode_chunk(data.as_str()) {
            Ok(bytes) => ClientWrite::Write(bytes),
            Err(bad) => ClientWrite::Skip(bad),
        },
        Payload::DataResponseTransferComplete { success, error_message, .. } =>
            ClientWrite::Finish { success, error_message },
        _ => ClientWrite::Ignore,
    }
}

impl ClientWrite {
    /// Whether more messages are awaited: not after the last one, nor where the bytes could not be
    /// written.
    pub fn writes_on(&self, written: bool) -> (r: bool)
        ensures
            r == match self@ {
                ClientWriteView::Write(_) => written,
                ClientWriteView::Skip | ClientWriteView::Ignore => true,
                ClientWriteView::Finish { .. } => false,
            },
            r == (self is Skip || self is Ignore || (self is Write && written)),
    {
        match self {
            ClientWrite::Write(_) => written,
            ClientWrite::Skip(_) => true,
            ClientWrite::Ignore => true,
            ClientWrite::Finish { .. } => false,
        }
    }
}

/// All that is written to the client for a series of messages.
pub open spec fn client_output(payloads: Seq<PayloadView>) -> Seq<u8>
    decreases payloads.len(),
{
    if payloads.len() == 0 {
        Seq::empty()
    } else {
        match client_write(payloads[0]) {
            ClientWriteView::Write(bytes) => bytes + client_output(payloads.skip(1)),
            ClientWriteView::Skip | ClientWriteView::Ignore => client_output(payloads.skip(1)),
            ClientWriteView::Finish { .. } => Seq::empty(),
        }
    }
}

/// The data of a message, if it is a chunk for the client.
pub open spec fn response_data(payload: PayloadView) -> Option<Seq<char>> {
    match payload {
        PayloadView::DataResponseChunk { data, .. } => Some(data),
        _ => None,
    }
}

/// When chunks arrive that each carry one read from the target, and then word that the target is
/// done, the client is written what was read, end to end, and nothing that comes after.
pub proof fn law_client_receives_what_was_read(
    chunks: Seq<PayloadView>,
    reads: Seq<Seq<u8>>,
    end: PayloadView,
    later: Seq<PayloadView>,
)
    requires
        chunks.len() == reads.len(),
        forall|i: int|
            0 <= i < chunks.len() ==> (response_data(#[trigger] chunks[i]) matches Some(data)
                && base64_bytes(data) == Some(reads[i])),
        end is DataResponseTransferComplete,
    ensures
        client_output(chunks + seq![end] + later) == joined(reads),
    decreases chunks.len(),
{
    let all = chunks + seq![end] + later;
    if chunks.len() == 0 {
        assert(all[0] == end);
        assert(joined(reads) =~= Seq::<u8>::empty());
    } else {
        let rest = chunks.skip(1);
        assert(all[0] == chunks[0]);
        assert(all.skip(1) =~= rest + seq![end] + later);
        assert forall|i: int| 0 <= i < rest.len() implies (response_data(#[trigger] rest[i])
            matches Some(data) && base64_bytes(data) == Some(reads.skip(1)[i])) by {
            assert(rest[i] == chunks[i + 1]);
        }
        law_client_receives_what_was_read(rest, reads.skip(1), end, later);
        lemma_joined_first(reads);
    }
}

/// All that is sent to the agent for a series of reads from the client, of which the first is sent
/// as chunk `chunk_id`. The reads after the last one that matters are not looked at.
pub open spec fn client_stream(
    request_id: Seq<char>,
    chunk_id: u32,
    reads: Seq<ReadView>,
) -> Seq<PayloadView>
    decreases reads.len(),
{
    if reads.len() == 0 {
        Seq::empty()
    } else {
        let sent = match client_read_payload(request_id, chunk_id, reads[0]) {
            Some(p) => seq![p],
            None => Seq::empty(),
        };
        if reads[0].brings_data() {
            sent + client_stream(request_id, (chunk_id + 1) as u32, reads.skip(1))
        } else {
            sent
        }
    }
}

/// The chunks in which a list of reads from the client is sent, from number `first` on.
pub open spec fn request_chunks(request_id: Seq<char>, first: int, data: Seq<Seq<u8>>) -> Seq<
    PayloadView,
> {
    Seq::new(
        data.len(),
        |i: int|
            PayloadView::DataRequestChunk {
                request_id,
                chunk_id: (first + i) as u32,
                data: base64_text(data[i]),
            },
    )
}

/// What a client sends goes to the agent in chunks that are numbered one after the other, and
/// after the last read comes word that the client has gone, or nothing if the read failed.
pub proof fn law_client_stream_is_numbered(
    request_id: Seq<char>,
    first: u32,
    data: Seq<Seq<u8>>,
    last: ReadView,
    later: Seq<ReadView>,
)
    requires
        forall|i: int| 0 <= i < data.len() ==> (#[trigger] data[i]).len() > 0,
        !last.brings_data(),
        first + data.len() <= u32::MAX,
    ensures
        ({
            let reads = data.map_values(|d: Seq<u8>| ReadView::Bytes(d)) + seq![last] + later;
            let end = match client_read_payload(request_id, (first + data.len()) as u32, last) {
                Some(p) => seq![p],
                None => Seq::empty(),
            };
            client_stream(request_id, first, reads) == request_chunks(
                request_id,
                first as int,
                data,
            ) + end
        }),
    decreases data.len(),
{
    let reads = data.map_values(|d: Seq<u8>| ReadView::Bytes(d)) + seq![last] + later;
    let end = match client_read_payload(request_id, (first + data.len()) as u32, last) {
        Some(p) => seq![p],
        None => Seq::<PayloadView>::empty(),
    };
    if data.len() == 0 {
        assert(reads[0] == last);
        assert(request_chunks(request_id, first as int, data) + end =~= end);
    } else {
        let rest = data.skip(1);
        assert(data[0].len() > 0);
        assert(reads[0] == ReadView::Bytes(data[0]));
        assert(reads.skip(1) =~= rest.map_values(|d: Seq<u8>| ReadView::Bytes(d)) + seq![last]
            + later);
        assert forall|i: int| 0 <= i < rest.len() implies (#[trigger] rest[i]).len() > 0 by {
            assert(rest[i] == data[i + 1]);
        }
        law_client_stream_is_numbered(request_id, (first + 1) as u32, rest, last, later);
        let chunks = request_chunks(request_id, first as int, data);
        assert(chunks =~= seq![chunks[0]] + request_chunks(request_id, first + 1, rest));
        assert(client_stream(request_id, first, reads) =~= chunks + end);
    }
}

/// What a client sends is passed on as it is, in a message that names the request; when it has no
/// more, the agent is told so; when it cannot be read, the agent is told nothing.
pub proof fn law_client_reads_are_passed_on(
    request_id: Seq<char>,
    chunk_id: u32,
    bytes: Seq<u8>,
    reason: Seq<char>,
)
    ensures
        bytes.len() > 0 ==> (client_read_payload(request_id, chunk_id, ReadView::Bytes(bytes))
            matches Some(PayloadView::DataRequestChunk { request_id: id, chunk_id: n, data }) && id
            == request_id && n == chunk_id && base64_bytes(data) == Some(bytes)),
        client_read_payload(request_id, chunk_id, ReadView::Bytes(Seq::empty())) matches Some(
            PayloadView::ClientDisconnect { request_id: id },
        ) && id == request_id,
        client_read_payload(request_id, chunk_id, ReadView::Failed(reason)) is None,
{
    law_base64_is_read_back(bytes);
}

/// Whatever bytes a chunk for the client carries are written to the client, whichever number and
/// request the chunk has; a chunk that carries none is skipped; the end of the target's data is
/// passed on with its outcome; and no other message has any effect.
pub proof fn law_messages_for_the_client(payload: PayloadView, bytes: Seq<u8>)
    ensures
        payload matches PayloadView::DataResponseChunk { data, .. } ==> {
            &&& data == base64_text(bytes) ==> client_write(payload) == ClientWriteView::Write(
                bytes,
            )
            &&& client_write(payload) is Skip <==> (forall|b: Seq<u8>| #[trigger]
                base64_text(b) != data)
            &&& client_write(payload) is Skip || client_write(payload) is Write
        },
        payload matches PayloadView::DataResponseTransferComplete { success, error_message, .. }
            ==> client_write(payload) == (ClientWriteView::Finish { success, error_message }),
        client_write(payload) is Ignore <==> payload !is DataResponseChunk && payload
            !is DataResponseTransferComplete,
{
    law_base64_is_read_back(bytes);
}

} // verus!
