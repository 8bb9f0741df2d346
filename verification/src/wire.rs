//! The wire protocol: a three-variant message union, its self-describing
//! binary encoding, and the length-prefixed framing that carries one encoded
//! message per connection.
//!
//! A frame is a four-byte big-endian length prefix followed by exactly that
//! many payload bytes. The payload encodes one [`Message`]: a tag byte, then
//! for `Text` one length-prefixed UTF-8 string, and for `File` and `Image` a
//! length-prefixed UTF-8 name followed by length-prefixed raw bytes.
use vstd::prelude::*;
use vstd::slice::{slice_subrange, slice_to_vec};
use vstd::string::StrSliceExecFns;
use vstd::utf8::{decode_utf8, encode_utf8, valid_utf8};

verus! {

/// Greatest frame payload length the listener accepts, in bytes (10 MiB).
pub const MAX_FRAME_LEN: u32 = 10 * 1024 * 1024;

pub const TAG_FILE: u8 = 0;

pub const TAG_IMAGE: u8 = 1;

pub const TAG_TEXT: u8 = 2;

/// One message carried by a frame: plain text to log, or a named payload to
/// persist as a file or as an image.
#[derive(Debug, PartialEq, Eq)]
pub enum Message {
    File(String, Vec<u8>),
    Image(String, Vec<u8>),
    Text(String),
}

/// The mathematical shape of a [`Message`]: its strings as character
/// sequences and its payloads as byte sequences.
pub enum MessageView {
    File(Seq<char>, Seq<u8>),
    Image(Seq<char>, Seq<u8>),
    Text(Seq<char>),
}

impl View for Message {
    type V = MessageView;

    open spec fn view(&self) -> MessageView {
        match self {
            Message::File(name, data) => MessageView::File(name@, data@),
            Message::Image(name, data) => MessageView::Image(name@, data@),
            Message::Text(text) => MessageView::Text(text@),
        }
    }
}

impl Message {
    /// The variant's name, as the log sink prints it.
    pub fn label(&self) -> (r: &'static str)
        ensures
            self@ matches MessageView::File(_, _) ==> r@ == "File"@,
            self@ matches MessageView::Image(_, _) ==> r@ == "Image"@,
            self@ matches MessageView::Text(_) ==> r@ == "Text"@,
    {
        match self {
            Message::File(_, _) => "File",
            Message::Image(_, _) => "Image",
            Message::Text(_) => "Text",
        }
    }
}

/// What can go wrong between reading a frame and decoding its message.
#[derive(Debug, PartialEq, Eq, Clone, Copy)]
pub enum WireError {
    /// The declared frame length exceeds [`MAX_FRAME_LEN`].
    OversizedFrame,
    /// The stream ended before the declared frame was complete.
    TruncatedFrame,
    /// The payload bytes do not parse as an encoded message.
    DecodeFailed,
}

/// The four-byte big-endian rendering of a length.
pub open spec fn spec_u32_to_be_bytes(x: u32) -> Seq<u8> {
    seq![(x >> 24) as u8, ((x >> 16) & 0xff) as u8, ((x >> 8) & 0xff) as u8, (x & 0xff) as u8]
}

/// The four-byte big-endian reading of a length prefix.
pub open spec fn spec_u32_from_be_bytes(s: Seq<u8>) -> u32
    recommends
        s.len() == 4,
{
    (((s[0] as u32) << 24) | ((s[1] as u32) << 16) | ((s[2] as u32) << 8) | (s[3] as u32)) as u32
}

pub proof fn lemma_u32_be_bytes_round_trip(x: u32)
    ensures
        spec_u32_to_be_bytes(x).len() == 4,
        spec_u32_from_be_bytes(spec_u32_to_be_bytes(x)) == x,
{
    assert(((((((x >> 24) as u8) as u32) << 24) | ((((x >> 16) & 0xff) as u8) as u32) << 16) | (((((
    x >> 8) & 0xff) as u8) as u32) << 8) | (((x & 0xff) as u8) as u32)) as u32 == x)
        by (bit_vector);
    let s = spec_u32_to_be_bytes(x);
    assert(s[0] == (x >> 24) as u8 && s[1] == ((x >> 16) & 0xff) as u8 && s[2] == ((x >> 8)
        & 0xff) as u8 && s[3] == (x & 0xff) as u8);
}

/// Reads a four-byte big-endian length prefix.
pub fn u32_from_be_bytes(s: &[u8]) -> (x: u32)
    requires
        s@.len() == 4,
    ensures
        x == spec_u32_from_be_bytes(s@),
{
    ((s[0] as u32) << 24) | ((s[1] as u32) << 16) | ((s[2] as u32) << 8) | (s[3] as u32)
}

/// Appends the four big-endian bytes of `x` to `out`.
pub fn push_u32_be_bytes(out: &mut Vec<u8>, x: u32)
    ensures
        final(out)@ == old(out)@ + spec_u32_to_be_bytes(x),
{
    proof {
        assert((x >> 24) < 256 && ((x >> 16) & 0xff) < 256 && ((x >> 8) & 0xff) < 256 && (x & 0xff)
            < 256) by (bit_vector);
    }
    let ghost start = out@;
    out.push((x >> 24) as u8);
    out.push(((x >> 16) & 0xff) as u8);
    out.push(((x >> 8) & 0xff) as u8);
    out.push((x & 0xff) as u8);
    proof {
        assert(out@ =~= start + spec_u32_to_be_bytes(x));
    }
}

/// The encoded form of a named payload: a tag, then the UTF-8 bytes of the
/// name and the raw data bytes, each behind a four-byte big-endian length.
pub open spec fn spec_encode_named(tag: u8, name: Seq<char>, data: Seq<u8>) -> Seq<u8> {
    let nb = encode_utf8(name);
    seq![tag] + spec_u32_to_be_bytes(nb.len() as u32) + nb + spec_u32_to_be_bytes(
        data.len() as u32,
    ) + data
}

/// The encoded form of a text message: the text tag, then the UTF-8 bytes of
/// the content behind a four-byte big-endian length.
pub open spec fn spec_encode_text(text: Seq<char>) -> Seq<u8> {
    let tb = encode_utf8(text);
    seq![TAG_TEXT] + spec_u32_to_be_bytes(tb.len() as u32) + tb
}

/// The encoded form of a message.
pub open spec fn spec_encode(m: MessageView) -> Seq<u8> {
    match m {
        MessageView::File(name, data) => spec_encode_named(TAG_FILE, name, data),
        MessageView::Image(name, data) => spec_encode_named(TAG_IMAGE, name, data),
        MessageView::Text(text) => spec_encode_text(text),
    }
}

/// Whether a message's pieces fit behind four-byte length prefixes.
pub open spec fn wf_message(m: MessageView) -> bool {
    match m {
        MessageView::File(name, data) => encode_utf8(name).len() <= u32::MAX && data.len()
            <= u32::MAX,
        MessageView::Image(name, data) => encode_utf8(name).len() <= u32::MAX && data.len()
            <= u32::MAX,
        MessageView::Text(text) => encode_utf8(text).len() <= u32::MAX,
    }
}

fn encode_named(tag: u8, name: &String, data: &Vec<u8>) -> (r: Vec<u8>)
    requires
        encode_utf8(name@).len() <= u32::MAX,
        data@.len() <= u32::MAX,
    ensures
        r@ == spec_encode_named(tag, name@, data@),
{
    let mut nb = name.as_str().as_bytes_vec();
    let mut out: Vec<u8> = Vec::new();
    out.push(tag);
    proof {
        assert(out@ =~= seq![tag]);
    }
    push_u32_be_bytes(&mut out, nb.len() as u32);
    out.append(&mut nb);
    push_u32_be_bytes(&mut out, data.len() as u32);
    out.extend_from_slice(data.as_slice());
    proof {
        assert(out@ =~= spec_encode_named(tag, name@, data@));
    }
    out
}

/// Encodes a message into the payload bytes of one frame.
pub fn encode(m: &Message) -> (r: Vec<u8>)
    requires
        wf_message(m@),
    ensures
        r@ == spec_encode(m@),
{
    match m {
        Message::File(name, data) => encode_named(TAG_FILE, name, data),
        Message::Image(name, data) => encode_named(TAG_IMAGE, name, data),
        Message::Text(text) => {
            let mut tb = text.as_str().as_bytes_vec();
            let mut out: Vec<u8> = Vec::new();
            out.push(TAG_TEXT);
            proof {
                assert(out@ =~= seq![TAG_TEXT]);
            }
            push_u32_be_bytes(&mut out, tb.len() as u32);
            out.append(&mut tb);
            proof {
                assert(out@ =~= spec_encode_text(text@));
            }
            out
        },
    }
}

/// Relies on String::from_utf8: it succeeds exactly on valid UTF-8 input and
/// returns the string those bytes encode.
#[verifier::external_body]
fn string_from_utf8(v: Vec<u8>) -> (r: Option<String>)
    ensures
        r is Some <==> valid_utf8(v@),
        r matches Some(s) ==> s@ == decode_utf8(v@),
{
    String::from_utf8(v).ok()
}

/// The message a payload decodes to, if any: the exact inverse of
/// [`spec_encode`], rejecting bad tags, lengths that do not add up, trailing
/// bytes, and names or texts that are not UTF-8.
pub open spec fn spec_decode(b: Seq<u8>) -> Option<MessageView> {
    if b.len() < 5 {
        None
    } else {
        let tag = b[0];
        let l1 = spec_u32_from_be_bytes(b.subrange(1, 5)) as int;
        if tag == TAG_TEXT {
            if b.len() == 5 + l1 && valid_utf8(b.skip(5)) {
                Some(MessageView::Text(decode_utf8(b.skip(5))))
            } else {
                None
            }
        } else if tag == TAG_FILE || tag == TAG_IMAGE {
            if b.len() < 9 + l1 {
                None
            } else {
                let nb = b.subrange(5, 5 + l1);
                let l2 = spec_u32_from_be_bytes(b.subrange(5 + l1, 9 + l1)) as int;
                if b.len() == 9 + l1 + l2 && valid_utf8(nb) {
                    if tag == TAG_FILE {
                        Some(MessageView::File(decode_utf8(nb), b.skip(9 + l1)))
                    } else {
                        Some(MessageView::Image(decode_utf8(nb), b.skip(9 + l1)))
                    }
                } else {
                    None
                }
            }
        } else {
            None
        }
    }
}

/// Decodes one frame payload into a message.
pub fn decode(bytes: &[u8]) -> (r: Result<Message, WireError>)
    ensures
        r matches Ok(m) ==> spec_decode(bytes@) == Some(m@),
        r is Err <==> spec_decode(bytes@) is None,
        r matches Err(e) ==> e == WireError::DecodeFailed,
{
    let n = bytes.len();
    if n < 5 {
        return Err(WireError::DecodeFailed);
    }
    let tag = bytes[0];
    let l1 = u32_from_be_bytes(slice_subrange(bytes, 1, 5)) as usize;
    if tag == TAG_TEXT {
        if n - 5 != l1 {
            return Err(WireError::DecodeFailed);
        }
        let tb = slice_to_vec(slice_subrange(bytes, 5, n));
        proof {
            assert(tb@ =~= bytes@.skip(5));
        }
        match string_from_utf8(tb) {
            Some(text) => Ok(Message::Text(text)),
            None => Err(WireError::DecodeFailed),
        }
    } else if tag == TAG_FILE || tag == TAG_IMAGE {
        if n < 9 || l1 > n - 9 {
            return Err(WireError::DecodeFailed);
        }
        let nb = slice_to_vec(slice_subrange(bytes, 5, 5 + l1));
        let l2 = u32_from_be_bytes(slice_subrange(bytes, 5 + l1, 9 + l1)) as usize;
        if n - 9 - l1 != l2 {
            return Err(WireError::DecodeFailed);
        }
        let name = match string_from_utf8(nb) {
            Some(name) => name,
            None => {
                return Err(WireError::DecodeFailed);
            },
        };
        let data = slice_to_vec(slice_subrange(bytes, 9 + l1, n));
        proof {
            assert(data@ =~= bytes@.skip(9 + l1));
        }
        if tag == TAG_FILE {
            Ok(Message::File(name, data))
        } else {
            Ok(Message::Image(name, data))
        }
    } else {
        Err(WireError::DecodeFailed)
    }
}

/// Round trip: every well-formed message decodes from its own encoding,
/// whichever of the three variants it is and however short its pieces are.
pub proof fn lemma_encode_decode_round_trip(m: MessageView)
    requires
        wf_message(m),
    ensures
        spec_decode(spec_encode(m)) == Some(m),
{
    broadcast use vstd::utf8::encode_utf8_valid_utf8, vstd::utf8::encode_utf8_decode_utf8;

    match m {
        MessageView::Text(text) => {
            let tb = encode_utf8(text);
            let b = spec_encode_text(text);
            lemma_u32_be_bytes_round_trip(tb.len() as u32);
            assert(b.len() == 5 + tb.len());
            assert(b[0] == TAG_TEXT);
            assert(b.subrange(1, 5) =~= spec_u32_to_be_bytes(tb.len() as u32));
            assert(b.skip(5) =~= tb);
        },
        MessageView::File(name, data) => {
            lemma_decode_encode_named(TAG_FILE, name, data);
        },
        MessageView::Image(name, data) => {
            lemma_decode_encode_named(TAG_IMAGE, name, data);
        },
    }
}

proof fn lemma_decode_encode_named(tag: u8, name: Seq<char>, data: Seq<u8>)
    requires
        tag == TAG_FILE || tag == TAG_IMAGE,
        encode_utf8(name).len() <= u32::MAX,
        data.len() <= u32::MAX,
    ensures
        spec_decode(spec_encode_named(tag, name, data)) == (if tag == TAG_FILE {
            Some(MessageView::File(decode_utf8(encode_utf8(name)), data))
        } else {
            Some(MessageView::Image(decode_utf8(encode_utf8(name)), data))
        }),
        decode_utf8(encode_utf8(name)) == name,
{
    broadcast use vstd::utf8::encode_utf8_valid_utf8, vstd::utf8::encode_utf8_decode_utf8;

    let nb = encode_utf8(name);
    let b = spec_encode_named(tag, name, data);
    lemma_u32_be_bytes_round_trip(nb.len() as u32);
    lemma_u32_be_bytes_round_trip(data.len() as u32);
    let l1 = nb.len() as int;
    assert(b.len() == 9 + l1 + data.len());
    assert(b[0] == tag);
    assert(b.subrange(1, 5) =~= spec_u32_to_be_bytes(nb.len() as u32));
    assert(b.subrange(5, 5 + l1) =~= nb);
    assert(b.subrange(5 + l1, 9 + l1) =~= spec_u32_to_be_bytes(data.len() as u32));
    assert(b.skip(9 + l1) =~= data);
}

/// Builds the frame that carries `payload`: the four-byte big-endian length
/// prefix, then the payload itself.
pub fn frame_for_payload(payload: &Vec<u8>) -> (r: Vec<u8>)
    requires
        payload@.len() <= u32::MAX,
    ensures
        r@ == spec_u32_to_be_bytes(payload@.len() as u32) + payload@,
{
    let mut out: Vec<u8> = Vec::new();
    push_u32_be_bytes(&mut out, payload.len() as u32);
    out.extend_from_slice(payload.as_slice());
    proof {
        assert(out@ =~= spec_u32_to_be_bytes(payload@.len() as u32) + payload@);
    }
    out
}

/// Where a frame read stands: what must be read next, or how it ended.
pub enum ReadState {
    /// The four length-prefix bytes are still owed.
    WantHeader,
    /// The prefix was accepted; this many payload bytes are owed.
    WantPayload(u32),
    /// A whole payload arrived.
    HavePayload(Vec<u8>),
    /// The frame was refused; nothing more will be read.
    Failed(WireError),
}

/// Reads one length-prefixed frame from a byte stream, fed chunk by chunk by
/// the I/O driver. An oversized length prefix moves straight to
/// [`ReadState::Failed`], where [`FrameReader::needed`] is zero: the reader
/// never asks for a byte of an oversized payload.
pub struct FrameReader {
    pub state: ReadState,
}

impl FrameReader {
    /// How many bytes the driver must read and feed next; zero once the
    /// frame is complete or refused.
    pub open spec fn spec_needed(&self) -> int {
        match self.state {
            ReadState::WantHeader => 4,
            ReadState::WantPayload(len) => len as int,
            ReadState::HavePayload(_) => 0,
            ReadState::Failed(_) => 0,
        }
    }

    pub fn new() -> (r: Self)
        ensures
            r.state == ReadState::WantHeader,
    {
        FrameReader { state: ReadState::WantHeader }
    }

    pub fn needed(&self) -> (n: usize)
        ensures
            n == self.spec_needed(),
    {
        match &self.state {
            ReadState::WantHeader => 4,
            ReadState::WantPayload(len) => *len as usize,
            ReadState::HavePayload(_) => 0,
            ReadState::Failed(_) => 0,
        }
    }

    /// Accepts or rejects the four-byte length prefix. A declared length over
    /// [`MAX_FRAME_LEN`] fails the frame at once, before any payload byte is
    /// requested.
    pub fn feed_header(&mut self, header: &[u8])
        requires
            old(self).state == ReadState::WantHeader,
            header@.len() == 4,
        ensures
            final(self).state == spec_state_after_header(header@),
    {
        let len = u32_from_be_bytes(header);
        if len > MAX_FRAME_LEN {
            self.state = ReadState::Failed(WireError::OversizedFrame);
        } else {
            self.state = ReadState::WantPayload(len);
        }
    }

    /// Takes the payload bytes the accepted prefix declared.
    pub fn feed_payload(&mut self, payload: Vec<u8>)
        requires
            old(self).state matches ReadState::WantPayload(len) && payload@.len() == len,
        ensures
            final(self).state == ReadState::HavePayload(payload),
    {
        self.state = ReadState::HavePayload(payload);
    }

    /// Records that the stream ended before the frame was complete.
    pub fn fail_truncated(&mut self)
        requires
            old(self).state matches ReadState::WantHeader || old(self).state
                matches ReadState::WantPayload(_),
        ensures
            final(self).state == ReadState::Failed(WireError::TruncatedFrame),
    {
        self.state = ReadState::Failed(WireError::TruncatedFrame);
    }
}

/// Where [`FrameReader::feed_header`] leaves the reader for a given prefix.
pub open spec fn spec_state_after_header(header: Seq<u8>) -> ReadState {
    if spec_u32_from_be_bytes(header) > MAX_FRAME_LEN {
        ReadState::Failed(WireError::OversizedFrame)
    } else {
        ReadState::WantPayload(spec_u32_from_be_bytes(header))
    }
}

/// Frame rejection: a length prefix that declares more than the maximum is
/// refused on the spot, and the reader then demands no payload bytes at all
/// from the stream.
pub proof fn lemma_oversized_frame_reads_nothing(header: Seq<u8>)
    requires
        header.len() == 4,
        spec_u32_from_be_bytes(header) > MAX_FRAME_LEN,
    ensures
        spec_state_after_header(header) == ReadState::Failed(WireError::OversizedFrame),
        (FrameReader { state: spec_state_after_header(header) }).spec_needed() == 0,
{
}

} // verus!
