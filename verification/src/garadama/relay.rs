//! The agent's side of a data transfer between the master and a target.

use vstd::prelude::*;

use crate::garadama::connect::ConnectionMap;
use crate::payload::{Payload, PayloadView};
use crate::transfer::{
    base64_bytes,
    base64_text,
    decode_chunk,
    law_base64_is_read_back,
    BadChunk,
    ChunkStream,
    ReadOutcome,
    ReadView,
    CHUNK_SIZE,
};

verus! {

/// What is sent to the master after a read from the target, and whether that was the last read.
#[derive(Debug, PartialEq, Eq)]
pub struct TargetRead {
    pub payload: Payload,
    pub done: bool,
}

/// What is sent to the master after a read from the target: a chunk, or word that the target is
/// done, or word that the read failed.
pub open spec fn target_read_payload(
    request_id: Seq<char>,
    chunk_id: u32,
    read: ReadView,
) -> PayloadView {
    match read {
        ReadView::Bytes(bytes) => if bytes.len() == 0 {
            PayloadView::DataResponseTransferComplete {
                request_id,
                success: true,
                error_message: None,
            }
        } else {
            PayloadView::DataResponseChunk { request_id, chunk_id, data: base64_text(bytes) }
        },
        ReadView::Failed(reason) => PayloadView::DataResponseTransferComplete {
            request_id,
            success: false,
            error_message: Some(reason),
        },
    }
}

/// Takes what came of reading from the target.
pub fn handle_target_read(stream: &mut ChunkStream, read: ReadOutcome) -> (r: TargetRead)
    requires
        read@ matches ReadView::Bytes(bytes) ==> bytes.len() <= CHUNK_SIZE,
        read@.brings_data() ==> old(stream).next_id() < u32::MAX,
    ensures
        final(stream).request() == old(stream).request(),
        final(stream).next_id() == if read@.brings_data() {
            old(stream).next_id() + 1
        } else {
            old(stream).next_id() as int
        },
        r.done == !read@.brings_data(),
        r.payload@ == target_read_payload(old(stream).request(), old(stream).next_id(), read@),
        match read {
            ReadOutcome::Bytes(bytes) => if bytes@.len() == 0 {
                &&& r.done
                &&& r.payload matches Payload::DataResponseTransferComplete {
                    request_id,
                    success: true,
                    error_message: None,
                }
                &&& request_id@ == old(stream).request()
                &&& final(stream).next_id() == old(stream).next_id()
            } else {
                &&& !r.done
                &&& r.payload matches Payload::DataResponseChunk { request_id, chunk_id, data }
                &&& request_id@ == old(stream).request()
                &&& chunk_id == old(stream).next_id()
                &&& data@ == base64_text(bytes@)
                &&& final(stream).next_id() == old(stream).next_id() + 1
            },
            ReadOutcome::Failed(reason) => {
                &&& r.done
                &&& r.payload matches Payload::DataResponseTransferComplete {
                    request_id,
                    success: false,
                    error_message: Some(text),
                }
                &&& request_id@ == old(stream).request()
                &&& text@ == reason@
                &&& final(stream).next_id() == old(stream).next_id()
            },
        },
{
    match read {
        ReadOutcome::Bytes(bytes) => {
            if bytes.len() == 0 {
                let request_id = stream.request_id().to_owned();
                return TargetRead {
                    payload: Payload::DataResponseTransferComplete {
                        request_id,
                        success: true,
                        error_message: None,
                    },
                    done: true,
                };
            }
            let chunk = stream.chunk(bytes.as_slice());
            TargetRead {
                payload: Payload::DataResponseChunk {
                    request_id: chunk.request_id,
                    chunk_id: chunk.chunk_id,
                    data: chunk.data,
                },
                done: false,
            }
        },
        ReadOutcome::Failed(reason) => {
            let request_id = stream.request_id().to_owned();
            TargetRead {
                payload: Payload::DataResponseTransferComplete {
                    request_id,
                    success: false,
                    error_message: Some(reason),
                },
                done: true,
            }
        },
    }
}

/// What is to be done about data for a target.
#[derive(Debug)]
pub enum TargetWrite<'a, W> {
    /// The bytes are to be written to the connection.
    Write { writer: &'a W, bytes: Vec<u8> },
    /// The data is not readable.
    Unreadable(BadChunk),
    /// The request has no connection.
    NotConnected,
}

/// What a [`TargetWrite`] amounts to.
pub enum TargetWriteView<W> {
    Write { writer: W, bytes: Seq<u8> },
    Unreadable,
    NotConnected,
}

impl<'a, W> View for TargetWrite<'a, W> {
    type V = TargetWriteView<W>;

    open spec fn view(&self) -> TargetWriteView<W> {
        match *self {
            TargetWrite::Write { writer, bytes } => TargetWriteView::Write {
                writer: *writer,
                bytes: bytes@,
            },
            TargetWrite::Unreadable(_) => TargetWriteView::Unreadable,
            TargetWrite::NotConnected => TargetWriteView::NotConnected,
        }
    }
}

/// What is to be done about data for the target of a request: readable data is written to the
/// connection of the request, if it has one.
pub open spec fn target_write<W>(
    request_id: Seq<char>,
    data: Seq<char>,
    connections: Map<Seq<char>, W>,
) -> TargetWriteView<W> {
    match base64_bytes(data) {
        Some(bytes) => if connections.contains_key(request_id) {
            TargetWriteView::Write { writer: connections[request_id], bytes }
        } else {
            TargetWriteView::NotConnected
        },
        None => TargetWriteView::Unreadable,
    }
}

/// Takes data for the target of a request.
pub fn handle_data_request<'a, W>(
    request_id: &str,
    data: &str,
    connections: &'a ConnectionMap<W>,
) -> (r: TargetWrite<'a, W>)
    ensures
        r@ == target_write(request_id@, data@, connections@),
        match r {
            TargetWrite::Write { writer, bytes } => {
                &&& base64_text(bytes@) == data@
                &&& connections@.contains_key(request_id@)
                &&& *writer == connections@[request_id@]
            },
            TargetWrite::Unreadable(_) => forall|bytes: Seq<u8>| #[trigger]
                base64_text(bytes) != data@,
            TargetWrite::NotConnected => {
                &&& exists|bytes: Seq<u8>| #[trigger] base64_text(bytes) == data@
                &&& !connections@.contains_key(request_id@)
            },
        },
{
    match decode_chunk(data) {
        Ok(bytes) => match connections.get(request_id) {
            Some(writer) => TargetWrite::Write { writer, bytes },
            None => TargetWrite::NotConnected,
        },
        Err(bad) => TargetWrite::Unreadable(bad),
    }
}

/// All that is sent to the master for a series of reads from the target, of which the first is sent
/// as chunk `chunk_id`. The reads after the last one that matters are not looked at.
pub open spec fn target_stream(
    request_id: Seq<char>,
    chunk_id: u32,
    reads: Seq<ReadView>,
) -> Seq<PayloadView>
    decreases reads.len(),
{
    if reads.len() == 0 {
        Seq::empty()
    } else {
        let sent = seq![target_read_payload(request_id, chunk_id, reads[0])];
        if reads[0].brings_data() {
            sent + target_stream(request_id, (chunk_id + 1) as u32, reads.skip(1))
        } else {
            sent
        }
    }
}

/// The chunks in which a list of reads from the target is sent, from number `first` on.
pub open spec fn response_chunks(request_id: Seq<char>, first: int, data: Seq<Seq<u8>>) -> Seq<
    PayloadView,
> {
    Seq::new(
        data.len(),
        |i: int|
            PayloadView::DataResponseChunk {
                request_id,
                chunk_id: (first + i) as u32,
                data: base64_text(data[i]),
            },
    )
}

/// What a target sends goes to the master in chunks that are numbered one after the other, and
/// after the last read comes word that the target is done, or that the read failed.
pub proof fn law_target_stream_is_numbered(
    request_id: Seq<char>,
    first: u32,
    data: Seq<Seq<u8>>,
    last: ReadView,
    later: Seq<ReadView>,
)
    requires
        forall|i: int| 0 <= i < data.len() ==> (#[trigger] data[i]).len() > 0,
        !last.brings_data(),
        first + data.len() <= u32::MAX,
    ensures
        ({
            let reads = data.map_values(|d: Seq<u8>| ReadView::Bytes(d)) + seq![last] + later;
            let end = target_read_payload(request_id, (first + data.len()) as u32, last);
            &&& target_stream(request_id, first, reads) == response_chunks(
                request_id,
                first as int,
                data,
            ) + seq![end]
            &&& end is DataResponseTransferComplete
        }),
    decreases data.len(),
{
    let reads = data.map_values(|d: Seq<u8>| ReadView::Bytes(d)) + seq![last] + later;
    let end = target_read_payload(request_id, (first + data.len()) as u32, last);
    if data.len() == 0 {
        assert(reads[0] == last);
        assert(response_chunks(request_id, first as int, data) + seq![end] =~= seq![end]);
    } else {
        let rest = data.skip(1);
        assert(data[0].len() > 0);
        assert(reads[0] == ReadView::Bytes(data[0]));
        assert(reads.skip(1) =~= rest.map_values(|d: Seq<u8>| ReadView::Bytes(d)) + seq![last]
            + later);
        assert forall|i: int| 0 <= i < rest.len() implies (#[trigger] rest[i]).len() > 0 by {
            assert(rest[i] == data[i + 1]);
        }
        law_target_stream_is_numbered(request_id, (first + 1) as u32, rest, last, later);
        let chunks = response_chunks(request_id, first as int, data);
        assert(chunks =~= seq![chunks[0]] + response_chunks(request_id, first + 1, rest));
        assert(target_stream(request_id, first, reads) =~= chunks + seq![end]);
    }
}

/// What a target sends is passed on as it is, in a message that names the request; when it has no
/// more, or cannot be read, the master is told so, and in the latter case why.
pub proof fn law_target_reads_are_passed_on(
    request_id: Seq<char>,
    chunk_id: u32,
    bytes: Seq<u8>,
    reason: Seq<char>,
)
    ensures
        bytes.len() > 0 ==> (target_read_payload(request_id, chunk_id, ReadView::Bytes(bytes))
            matches PayloadView::DataResponseChunk { request_id: id, chunk_id: n, data } && id
            == request_id && n == chunk_id && base64_bytes(data) == Some(bytes)),
        target_read_payload(request_id, chunk_id, ReadView::Bytes(Seq::empty()))
            matches PayloadView::DataResponseTransferComplete {
            request_id: id,
            success,
            error_message,
        } && id == request_id && success && error_message is None,
        target_read_payload(request_id, chunk_id, ReadView::Failed(reason))
            matches PayloadView::DataResponseTransferComplete {
            request_id: id,
            success,
            error_message,
        } && id == request_id && !success && error_message == Some(reason),
{
    law_base64_is_read_back(bytes);
}

/// Bytes for a target are written to the connection of their request, and to no other; without a
/// connection they are written nowhere; and a text that stands for no bytes is not written.
pub proof fn law_data_is_written_to_its_connection<W>(
    request_id: Seq<char>,
    bytes: Seq<u8>,
    text: Seq<char>,
    connections: Map<Seq<char>, W>,
    writer: W,
)
    ensures
        target_write(request_id, base64_text(bytes), connections.insert(request_id, writer)) == (
        TargetWriteView::Write { writer, bytes }),
        target_write(request_id, base64_text(bytes), connections.remove(request_id)) == (
        TargetWriteView::<W>::NotConnected),
        target_write(request_id, text, connections) is Unreadable <==> (forall|b: Seq<u8>|
            #[trigger] base64_text(b) != text),
{
    law_base64_is_read_back(bytes);
}

} // verus!
