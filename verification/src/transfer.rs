//! Byte streams as numbered chunks in base64.

use vstd::prelude::*;

verus! {

/// The number of bytes that are read from a connection at a time, at most.
pub const CHUNK_SIZE: usize = 1024;

/// The base64 digit for a number below 64.
pub open spec fn base64_digit(n: int) -> char {
    if n < 26 {
        (65 + n) as char
    } else if n < 52 {
        (71 + n) as char
    } else if n < 62 {
        (n - 4) as char
    } else if n == 62 {
        '+'
    } else {
        '/'
    }
}

/// The base64 text of a byte sequence, in the standard alphabet with padding: three bytes are four
/// digits of six bits each, and a shorter last group is filled up with zero bits and then with `=`.
pub open spec fn base64_text(bytes: Seq<u8>) -> Seq<char>
    decreases bytes.len(),
{
    let (a, b, c) = (bytes[0] as int, bytes[1] as int, bytes[2] as int);
    if bytes.len() == 0 {
        Seq::empty()
    } else if bytes.len() == 1 {
        seq![base64_digit(a / 4), base64_digit(a % 4 * 16), '=', '=']
    } else if bytes.len() == 2 {
        seq![
            base64_digit(a / 4),
            base64_digit(a % 4 * 16 + b / 16),
            base64_digit(b % 16 * 4),
            '=',
        ]
    } else {
        seq![
            base64_digit(a / 4),
            base64_digit(a % 4 * 16 + b / 16),
            base64_digit(b % 16 * 4 + c / 64),
            base64_digit(c % 64),
        ] + base64_text(bytes.skip(3))
    }
}

/// The byte sequence that a base64 text stands for; `None` where it is the text of none.
pub open spec fn base64_bytes(text: Seq<char>) -> Option<Seq<u8>> {
    if exists|bytes: Seq<u8>| #[trigger] base64_text(bytes) == text {
        Some(choose|bytes: Seq<u8>| #[trigger] base64_text(bytes) == text)
    } else {
        None
    }
}

/// Different numbers have different digits, and none of them is the padding.
proof fn lemma_digits_differ(n: int, m: int)
    requires
        0 <= n < 64,
        0 <= m < 64,
    ensures
        base64_digit(n) == base64_digit(m) ==> n == m,
        base64_digit(n) != '=',
{
}

/// Different byte sequences have different base64 texts.
pub proof fn law_base64_texts_differ(a: Seq<u8>, b: Seq<u8>)
    requires
        base64_text(a) == base64_text(b),
    ensures
        a == b,
    decreases a.len(),
{
    let (s, t) = (base64_text(a), base64_text(b));
    if a.len() == 0 || b.len() == 0 {
        assert(a.len() > 0 ==> s.len() > 0);
        assert(b.len() > 0 ==> t.len() > 0);
        assert(a =~= b);
    } else {
        let (a0, a1, a2) = (a[0] as int, a[1] as int, a[2] as int);
        let (b0, b1, b2) = (b[0] as int, b[1] as int, b[2] as int);
        let second = |x: Seq<u8>|
            x[0] as int % 4 * 16 + if x.len() == 1 {
                0
            } else {
                x[1] as int / 16
            };
        let third = |x: Seq<u8>|
            x[1] as int % 16 * 4 + if x.len() == 2 {
                0
            } else {
                x[2] as int / 64
            };
        lemma_digits_differ(a0 / 4, b0 / 4);
        lemma_digits_differ(second(a), second(b));
        lemma_digits_differ(third(a), third(b));
        lemma_digits_differ(third(b), third(a));
        lemma_digits_differ(a2 % 64, b2 % 64);
        lemma_digits_differ(b2 % 64, a2 % 64);
        assert(s[0] == t[0] && s[1] == t[1] && s[2] == t[2] && s[3] == t[3]);
        assert(s[2] == '=' <==> a.len() == 1);
        assert(t[2] == '=' <==> b.len() == 1);
        assert(s[3] == '=' <==> a.len() <= 2);
        assert(t[3] == '=' <==> b.len() <= 2);
        if a.len() > 2 {
            assert(s.skip(4) =~= base64_text(a.skip(3)));
            assert(t.skip(4) =~= base64_text(b.skip(3)));
            law_base64_texts_differ(a.skip(3), b.skip(3));
            assert(a =~= a.take(3) + a.skip(3));
            assert(b =~= b.take(3) + b.skip(3));
            assert(a.take(3) =~= b.take(3));
        } else {
            assert(a =~= b);
        }
    }
}

/// The bytes that a base64 text was made from are read back from it.
pub proof fn law_base64_is_read_back(bytes: Seq<u8>)
    ensures
        base64_bytes(base64_text(bytes)) == Some(bytes),
{
    let text = base64_text(bytes);
    let read = choose|b: Seq<u8>| #[trigger] base64_text(b) == text;
    law_base64_texts_differ(read, bytes);
}

#[verifier::external_type_specification]
#[verifier::external_body]
pub struct ExDecodeError(base64::DecodeError);

/// `base64::encode` writes bytes in the standard alphabet with padding. It panics where the text
/// is too long to be allocated.
#[verifier::external_body]
#[allow(deprecated)]
fn encode(bytes: &[u8]) -> (r: String)
    requires
        (bytes@.len() / 3 + 1) * 4 <= isize::MAX,
    ensures
        r@ == base64_text(bytes@),
{
    base64::encode(bytes)
}

/// `base64::decode` reads the bytes whose text in the standard alphabet with padding this is, or
/// finds that it is the text of none: a missing or superfluous padding, and a last digit with bits
/// that carry nothing, are errors too.
#[verifier::external_body]
#[allow(deprecated)]
fn decode(text: &str) -> (r: Result<Vec<u8>, base64::DecodeError>)
    ensures
        match r {
            Ok(bytes) => base64_text(bytes@) == text@,
            Err(_) => forall|bytes: Seq<u8>| #[trigger] base64_text(bytes) != text@,
        },
{
    base64::decode(text)
}

/// The data of a chunk is not base64.
#[derive(Debug)]
pub struct BadChunk {
    pub cause: base64::DecodeError,
}

/// The bytes that the data of a chunk stands for.
pub fn decode_chunk(data: &str) -> (r: Result<Vec<u8>, BadChunk>)
    ensures
        match r {
            Ok(bytes) => base64_bytes(data@) == Some(bytes@) && base64_text(bytes@) == data@,
            Err(_) => base64_bytes(data@) is None && forall|bytes: Seq<u8>| #[trigger]
                base64_text(bytes) != data@,
        },
{
    match decode(data) {
        Ok(bytes) => {
            proof {
                law_base64_is_read_back(bytes@);
            }
            Ok(bytes)
        },
        Err(cause) => Err(BadChunk { cause }),
    }
}

/// What came of reading from a connection.
#[derive(Debug, PartialEq, Eq)]
pub enum ReadOutcome {
    /// The bytes that were read. No byte at all is the end of the stream.
    Bytes(Vec<u8>),
    /// The read failed.
    Failed(String),
}

/// What a [`ReadOutcome`] stands for.
pub enum ReadView {
    Bytes(Seq<u8>),
    Failed(Seq<char>),
}

impl ReadView {
    /// Whether the read brought data.
    pub open spec fn brings_data(self) -> bool {
        self matches ReadView::Bytes(bytes) && bytes.len() > 0
    }
}

impl View for ReadOutcome {
    type V = ReadView;

    open spec fn view(&self) -> ReadView {
        match *self {
            ReadOutcome::Bytes(bytes) => ReadView::Bytes(bytes@),
            ReadOutcome::Failed(reason) => ReadView::Failed(reason@),
        }
    }
}

/// The outgoing half of a request: its chunks are numbered from one.
#[derive(Debug)]
pub struct ChunkStream {
    request_id: String,
    next_chunk_id: u32,
}

/// The data of one chunk and its number.
pub struct Chunk {
    pub request_id: String,
    pub chunk_id: u32,
    pub data: String,
}

impl ChunkStream {
    /// The request that the stream belongs to.
    pub closed spec fn request(self) -> Seq<char> {
        self.request_id@
    }

    /// The number of the next chunk.
    pub closed spec fn next_id(self) -> u32 {
        self.next_chunk_id
    }

    /// The stream of a request before its first chunk.
    pub fn new(request_id: &str) -> (r: Self)
        ensures
            r.request() == request_id@,
            r.next_id() == 1,
    {
        ChunkStream { request_id: request_id.to_owned(), next_chunk_id: 1 }
    }

    /// The identifier of the request that the stream belongs to.
    pub fn request_id(&self) -> (r: &str)
        ensures
            r@ == self.request(),
    {
        self.request_id.as_str()
    }

    /// Whether the numbers have run out.
    pub fn exhausted(&self) -> (r: bool)
        ensures
            r == (self.next_id() == u32::MAX),
    {
        self.next_chunk_id == u32::MAX
    }

    /// The next chunk, which carries `bytes`.
    pub fn chunk(&mut self, bytes: &[u8]) -> (r: Chunk)
        requires
            old(self).next_id() < u32::MAX,
            bytes@.len() <= CHUNK_SIZE,
        ensures
            r.request_id@ == old(self).request(),
            r.chunk_id == old(self).next_id(),
            r.data@ == base64_text(bytes@),
            final(self).request() == old(self).request(),
            final(self).next_id() == old(self).next_id() + 1,
    {
        let chunk = Chunk {
            request_id: self.request_id.clone(),
            chunk_id: self.next_chunk_id,
            data: encode(bytes),
        };
        self.next_chunk_id = self.next_chunk_id + 1;
        chunk
    }
}

/// Whether a connection is read on after a read: it is not where that was the last one, nor where
/// what came of it could not be sent.
pub fn reads_on(done: bool, sent: bool) -> (r: bool)
    ensures
        r == (!done && sent),
{
    !done && sent
}

/// The bytes of a list of reads, end to end.
pub open spec fn joined(reads: Seq<Seq<u8>>) -> Seq<u8>
    decreases reads.len(),
{
    if reads.len() == 0 {
        Seq::empty()
    } else {
        joined(reads.drop_last()) + reads.last()
    }
}

/// The first read comes first.
pub proof fn lemma_joined_first(reads: Seq<Seq<u8>>)
    requires
        reads.len() > 0,
    ensures
        joined(reads) == reads[0] + joined(reads.skip(1)),
    decreases reads.len(),
{
    if reads.len() == 1 {
        assert(joined(reads.drop_last()) =~= Seq::<u8>::empty());
        assert(joined(reads.skip(1)) =~= Seq::<u8>::empty());
        assert(joined(reads) =~= reads[0] + joined(reads.skip(1)));
    } else {
        lemma_joined_first(reads.drop_last());
        assert(reads.drop_last().skip(1) =~= reads.skip(1).drop_last());
        assert(joined(reads) =~= reads[0] + joined(reads.skip(1)));
    }
}

/// The base64 text of bytes has four digits for every three bytes or part of three, all of the
/// standard alphabet; only at the end can one or two of them be the padding.
pub proof fn law_base64_has_the_standard_form(bytes: Seq<u8>)
    ensures
        base64_text(bytes).len() == (bytes.len() + 2) / 3 * 4,
        forall|i: int|
            0 <= i < base64_text(bytes).len() ==> {
                let c = #[trigger] base64_text(bytes)[i];
                ||| 'A' <= c <= 'Z'
                ||| 'a' <= c <= 'z'
                ||| '0' <= c <= '9'
                ||| c == '+'
                ||| c == '/'
                ||| c == '=' && i >= base64_text(bytes).len() - 2
            },
        bytes.len() % 3 == 0 <==> !base64_text(bytes).contains('='),
    decreases bytes.len(),
{
    let text = base64_text(bytes);
    if bytes.len() >= 3 {
        let rest = bytes.skip(3);
        law_base64_has_the_standard_form(rest);
        let more = base64_text(rest);
        assert forall|i: int| 4 <= i < text.len() implies #[trigger] text[i] == more[i - 4] by {}
        if more.contains('=') {
            let i = choose|i: int| 0 <= i < more.len() && more[i] == '=';
            assert(text[i + 4] == '=');
        }
        if text.contains('=') {
            let i = choose|i: int| 0 <= i < text.len() && text[i] == '=';
            assert(i >= 4);
            assert(more[i - 4] == '=');
        }
    } else if bytes.len() > 0 {
        assert(text[3] == '=');
    }
}

/// What came of a read is seen whole, and brings data exactly where there are bytes.
pub proof fn law_read_is_seen_whole(read: ReadOutcome)
    ensures
        match read {
            ReadOutcome::Bytes(bytes) => read@ matches ReadView::Bytes(b) && b == bytes@
                && read@.brings_data() == (bytes@.len() > 0),
            ReadOutcome::Failed(reason) => read@ matches ReadView::Failed(t) && t == reason@
                && !read@.brings_data(),
        },
{
}

/// A chunk carries up to a kibibyte.
pub proof fn law_chunk_size_is_a_kibibyte()
    ensures
        CHUNK_SIZE == 1024,
{
}

} // verus!
