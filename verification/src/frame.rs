//! The length-prefixed framing codec.
//!
//! Every message on the wire is a frame: a 9-byte header (magic word,
//! message code, payload length, all big-endian) followed by the payload.
//! Decoding is the exact inverse of encoding; the round-trip law and the
//! header laws stand at the end of this module.

use vstd::prelude::*;

use vstd::string::StrSliceExecFns;
use vstd::utf8::{decode_utf8, encode_utf8, encode_utf8_decode_utf8, encode_utf8_valid_utf8,
    valid_utf8};
use vstd::arithmetic::div_mod::{lemma_div_multiples_vanish, lemma_mod_multiples_basic};

use crate::state::{
    lemma_state_bytes_len, lemma_state_round_trip, lemma_states_bytes_index,
    lemma_states_bytes_len, lemma_states_bytes_push, state_bytes, state_of_bytes, states_bytes,
    copy_states, ClientState,
};
use crate::wire::{
    be_u32_val, lemma_u32_be_round_trip, push_u32_be, read_u32_be, u32_be_bytes,
};

verus! {

/// The magic word starting every frame: the bytes `b"LAG!"`.
pub const MAGIC_BYTES: u32 = 0x4C414721;

/// Why a byte sequence failed to decode as a frame.
#[derive(Clone, Copy, Debug, PartialEq, Eq, Structural)]
pub enum DecodeError {
    /// Fewer than 9 bytes were available for the header.
    ShortHeader,
    /// The frame does not start with the magic word.
    BadMagic,
    /// The code byte names no known message kind.
    UnknownCode,
    /// Fewer payload bytes were available than the header announced.
    ShortPayload,
    /// The announced payload length is impossible for the message kind.
    BadLength,
    /// A text payload longer than the read buffer allows.
    TextTooLong,
    /// A text payload that is not valid UTF-8.
    BadText,
}

/// The kind of message a frame carries.
#[derive(Clone, Copy, Debug, PartialEq, Eq, Structural)]
pub enum MessageCode {
    Text,
    ClientUpdate,
    GameStateUpdate,
    Ping,
}

/// The wire byte of each message code.
pub open spec fn code_byte(c: MessageCode) -> u8 {
    match c {
        MessageCode::Text => 0x01,
        MessageCode::ClientUpdate => 0x02,
        MessageCode::GameStateUpdate => 0x03,
        MessageCode::Ping => 0xFF,
    }
}

/// The message code a wire byte denotes, if any.
pub open spec fn code_of_byte(b: u8) -> Option<MessageCode> {
    if b == 0x01 {
        Some(MessageCode::Text)
    } else if b == 0x02 {
        Some(MessageCode::ClientUpdate)
    } else if b == 0x03 {
        Some(MessageCode::GameStateUpdate)
    } else if b == 0xFF {
        Some(MessageCode::Ping)
    } else {
        None
    }
}

impl MessageCode {
    /// Parse a code byte.
    pub fn from_u8(byte: u8) -> (r: Option<MessageCode>)
        ensures
            r == code_of_byte(byte),
    {
        match byte {
            0x01 => Some(MessageCode::Text),
            0x02 => Some(MessageCode::ClientUpdate),
            0x03 => Some(MessageCode::GameStateUpdate),
            0xFF => Some(MessageCode::Ping),
            _ => None,
        }
    }

    /// The wire byte of this code.
    pub fn to_u8(&self) -> (r: u8)
        ensures
            r == code_byte(*self),
    {
        match self {
            MessageCode::Text => 0x01,
            MessageCode::ClientUpdate => 0x02,
            MessageCode::GameStateUpdate => 0x03,
            MessageCode::Ping => 0xFF,
        }
    }
}

/// Reading back the byte of a code yields the code.
pub proof fn lemma_code_byte_round_trip(c: MessageCode)
    ensures
        code_of_byte(code_byte(c)) == Some(c),
{
}

/// A frame header: magic word, message code, payload length.
#[derive(Clone, Copy, Debug, PartialEq, Eq, Structural)]
pub struct MessageHeader {
    /// Magic number starting each frame; `MAGIC_BYTES` on every valid frame.
    pub magic: u32,
    /// The kind of message contained in this frame.
    pub code: MessageCode,
    /// The byte count of the payload that follows the header.
    pub length: u32,
}

/// The 9-byte wire image of a header.
pub open spec fn header_bytes_of(h: MessageHeader) -> Seq<u8> {
    u32_be_bytes(h.magic) + seq![code_byte(h.code)] + u32_be_bytes(h.length)
}

/// What the first 9 bytes of a byte sequence denote: a header, or the
/// error that dooms the frame.
pub open spec fn parse_header(b: Seq<u8>) -> Result<MessageHeader, DecodeError> {
    if b.len() < 9 {
        Err(DecodeError::ShortHeader)
    } else if be_u32_val(b.subrange(0, 4)) != MAGIC_BYTES {
        Err(DecodeError::BadMagic)
    } else {
        match code_of_byte(b[4]) {
            None => Err(DecodeError::UnknownCode),
            Some(c) => Ok(
                MessageHeader {
                    magic: MAGIC_BYTES,
                    code: c,
                    length: be_u32_val(b.subrange(5, 9)) as u32,
                },
            ),
        }
    }
}

/// The pieces of a header's wire image.
pub proof fn lemma_header_bytes_parts(h: MessageHeader)
    ensures
        header_bytes_of(h).len() == 9,
        header_bytes_of(h).subrange(0, 4) == u32_be_bytes(h.magic),
        header_bytes_of(h)[4] == code_byte(h.code),
        header_bytes_of(h).subrange(5, 9) == u32_be_bytes(h.length),
{
    assert(header_bytes_of(h).subrange(0, 4) =~= u32_be_bytes(h.magic));
    assert(header_bytes_of(h).subrange(5, 9) =~= u32_be_bytes(h.length));
}

impl MessageHeader {
    /// A header for the given code and payload length, with the magic word.
    pub fn new(code: MessageCode, data_len: u32) -> (r: MessageHeader)
        ensures
            r == (MessageHeader { magic: MAGIC_BYTES, code, length: data_len }),
    {
        MessageHeader { magic: MAGIC_BYTES, code, length: data_len }
    }

    /// Whether the magic word is present.
    pub fn is_valid(&self) -> (r: bool)
        ensures
            r == (self.magic == MAGIC_BYTES),
    {
        self.magic == MAGIC_BYTES
    }

    /// Parse the 9-byte header at the front of a byte slice.
    pub fn read_slice(input: &[u8]) -> (r: Result<MessageHeader, DecodeError>)
        ensures
            r == parse_header(input@),
    {
        if input.len() < 9 {
            return Err(DecodeError::ShortHeader);
        }
        let magic = read_u32_be(input, 0);
        if magic != MAGIC_BYTES {
            return Err(DecodeError::BadMagic);
        }
        match MessageCode::from_u8(input[4]) {
            None => Err(DecodeError::UnknownCode),
            Some(code) => {
                let length = read_u32_be(input, 5);
                Ok(MessageHeader { magic, code, length })
            },
        }
    }

    /// Serialize this header into its 9-byte wire image.
    pub fn to_bytes(&self) -> (r: Vec<u8>)
        ensures
            r@ == header_bytes_of(*self),
    {
        let mut out: Vec<u8> = Vec::new();
        push_u32_be(&mut out, self.magic);
        out.push(self.code.to_u8());
        push_u32_be(&mut out, self.length);
        assert(out@ =~= header_bytes_of(*self));
        out
    }
}

/// The mathematical image of a message: text as a character sequence,
/// state updates as records.
#[verifier::ext_equal]
pub enum MessageView {
    Ping,
    Text { message: Seq<char> },
    ClientUpdate(ClientState),
    GameStateUpdate(Seq<ClientState>),
}

/// A message of the protocol.
#[derive(Debug, PartialEq)]
pub enum Message {
    /// A keepalive; carries nothing.
    Ping,
    /// A chat line, broadcast to every connected client.
    Text { message: String },
    /// One client's record: sent by a client to report its transform, and
    /// by the server once at connect time to assign the client its id.
    ClientUpdate(ClientState),
    /// The server's authoritative snapshot, broadcast on every dirty tick.
    GameStateUpdate(Vec<ClientState>),
}

impl View for Message {
    type V = MessageView;

    open spec fn view(&self) -> MessageView {
        match self {
            Message::Ping => MessageView::Ping,
            Message::Text { message } => MessageView::Text { message: message@ },
            Message::ClientUpdate(cs) => MessageView::ClientUpdate(*cs),
            Message::GameStateUpdate(v) => MessageView::GameStateUpdate(v@),
        }
    }
}

impl Clone for Message {
    /// A clone denotes the same message.
    fn clone(&self) -> (r: Self)
        ensures
            r@ == self@,
    {
        match self {
            Message::Ping => Message::Ping,
            Message::Text { message } => Message::Text { message: message.clone() },
            Message::ClientUpdate(cs) => Message::ClientUpdate(*cs),
            Message::GameStateUpdate(v) => Message::GameStateUpdate(copy_states(v)),
        }
    }
}

/// The wire code of a message.
pub open spec fn message_code_of(m: MessageView) -> MessageCode {
    match m {
        MessageView::Ping => MessageCode::Ping,
        MessageView::Text { .. } => MessageCode::Text,
        MessageView::ClientUpdate(..) => MessageCode::ClientUpdate,
        MessageView::GameStateUpdate(..) => MessageCode::GameStateUpdate,
    }
}

/// The payload bytes of a message: UTF-8 for text, 20-byte records for
/// state, nothing for a ping.
pub open spec fn payload_bytes(m: MessageView) -> Seq<u8> {
    match m {
        MessageView::Ping => Seq::empty(),
        MessageView::Text { message } => encode_utf8(message),
        MessageView::ClientUpdate(cs) => state_bytes(cs),
        MessageView::GameStateUpdate(states) => states_bytes(states),
    }
}

/// Whether the payload's byte count fits the header's 32-bit length field.
pub open spec fn wire_ok(m: MessageView) -> bool {
    payload_bytes(m).len() <= 0xFFFFFFFF
}

/// A message every conforming decoder accepts: its payload fits the
/// length field, and a text payload fits the 1024-byte read buffer.
pub open spec fn wf_message(m: MessageView) -> bool {
    &&& wire_ok(m)
    &&& (m matches MessageView::Text { message } ==> encode_utf8(message).len() <= 1024)
}

/// The full wire image of a message: 9-byte header, then the payload.
pub open spec fn frame_bytes(m: MessageView) -> Seq<u8> {
    header_bytes_of(
        MessageHeader {
            magic: MAGIC_BYTES,
            code: message_code_of(m),
            length: payload_bytes(m).len() as u32,
        },
    ) + payload_bytes(m)
}

/// What a byte sequence decodes to: the message its first frame carries,
/// or the error that dooms it.  Bytes beyond the frame are ignored.
pub open spec fn parse_message(b: Seq<u8>) -> Result<MessageView, DecodeError> {
    match parse_header(b) {
        Err(e) => Err(e),
        Ok(h) => {
            let len = h.length as int;
            match h.code {
                MessageCode::Ping => if len != 0 {
                    Err(DecodeError::BadLength)
                } else {
                    Ok(MessageView::Ping)
                },
                MessageCode::Text => if len > 1024 {
                    Err(DecodeError::TextTooLong)
                } else if b.len() < 9 + len {
                    Err(DecodeError::ShortPayload)
                } else if !valid_utf8(b.subrange(9, 9 + len)) {
                    Err(DecodeError::BadText)
                } else {
                    Ok(MessageView::Text { message: decode_utf8(b.subrange(9, 9 + len)) })
                },
                MessageCode::ClientUpdate => if len != 20 {
                    Err(DecodeError::BadLength)
                } else if b.len() < 29 {
                    Err(DecodeError::ShortPayload)
                } else {
                    Ok(MessageView::ClientUpdate(state_of_bytes(b.subrange(9, 29))))
                },
                MessageCode::GameStateUpdate => if len % 20 != 0 {
                    Err(DecodeError::BadLength)
                } else if b.len() < 9 + len {
                    Err(DecodeError::ShortPayload)
                } else {
                    Ok(
                        MessageView::GameStateUpdate(
                            Seq::new(
                                (len / 20) as nat,
                                |i: int| state_of_bytes(b.subrange(9 + 20 * i, 29 + 20 * i)),
                            ),
                        ),
                    )
                },
            }
        },
    }
}

/// The images of a sequence of messages, in order.
pub open spec fn msg_views(s: Seq<Message>) -> Seq<MessageView> {
    s.map_values(|m: Message| m@)
}

/// The view of a decode result, message replaced by its image.
pub open spec fn message_result_view(r: Result<Message, DecodeError>) -> Result<
    MessageView,
    DecodeError,
> {
    match r {
        Ok(m) => Ok(m@),
        Err(e) => Err(e),
    }
}

/// Relies on `String::from_utf8`: it succeeds exactly on valid UTF-8 and
/// returns the character sequence that the bytes encode.
#[verifier::external_body]
fn bytes_to_string(bytes: Vec<u8>) -> (r: Option<String>)
    ensures
        r matches Some(s) ==> valid_utf8(bytes@) && s@ == decode_utf8(bytes@),
        valid_utf8(bytes@) ==> r is Some,
{
    String::from_utf8(bytes).ok()
}

/// Copy `count` bytes of `input` starting at `offset` into a fresh vector.
fn copy_bytes(input: &[u8], offset: usize, count: usize) -> (r: Vec<u8>)
    requires
        offset + count <= input@.len(),
    ensures
        r@ == input@.subrange(offset as int, offset as int + count as int),
{
    let n = input.len();
    let mut out: Vec<u8> = Vec::new();
    let mut i: usize = 0;
    while i < count
        invariant
            i <= count,
            offset + count <= n,
            n == input@.len(),
            out@ == input@.subrange(offset as int, offset as int + i as int),
        decreases count - i,
    {
        out.push(input[offset + i]);
        assert(out@ =~= input@.subrange(offset as int, offset as int + i as int + 1));
        i += 1;
    }
    out
}

impl Message {
    /// A chat message.
    pub fn new_text_message(msg: String) -> (r: Message)
        ensures
            r@ == (MessageView::Text { message: msg@ }),
    {
        Message::Text { message: msg }
    }

    /// A state-report message carrying one client's record.
    pub fn new_client_update_message(client_state: &ClientState) -> (r: Message)
        ensures
            r@ == MessageView::ClientUpdate(*client_state),
    {
        Message::ClientUpdate(*client_state)
    }

    /// The code this message travels under.
    pub fn get_message_code(&self) -> (r: MessageCode)
        ensures
            r == message_code_of(self@),
    {
        match self {
            Message::Text { .. } => MessageCode::Text,
            Message::Ping => MessageCode::Ping,
            Message::ClientUpdate(..) => MessageCode::ClientUpdate,
            Message::GameStateUpdate(..) => MessageCode::GameStateUpdate,
        }
    }

    /// Whether this message's payload fits the frame's length field.
    pub fn fits_frame(&self) -> (r: bool)
        ensures
            r == wire_ok(self@),
    {
        match self {
            Message::Ping => true,
            Message::Text { message } => (message.as_str().as_bytes().len() as u64)
                <= 0xFFFFFFFFu64,
            Message::ClientUpdate(cs) => {
                proof {
                    lemma_state_bytes_len(*cs);
                }
                true
            },
            Message::GameStateUpdate(states) => {
                proof {
                    lemma_states_bytes_len(states@);
                }
                (states.len() as u64) <= 0xFFFFFFFFu64 / 20
            },
        }
    }

    /// Serialize this message's payload.
    pub fn to_bytes(&self) -> (r: Vec<u8>)
        ensures
            r@ == payload_bytes(self@),
    {
        match self {
            Message::Text { message } => message.as_str().as_bytes_vec(),
            Message::Ping => Vec::new(),
            Message::ClientUpdate(cs) => cs.to_bytes(),
            Message::GameStateUpdate(states) => {
                let n = states.len();
                let mut out: Vec<u8> = Vec::new();
                let mut i: usize = 0;
                while i < n
                    invariant
                        i <= n,
                        n == states@.len(),
                        out@ == states_bytes(states@.take(i as int)),
                    decreases n - i,
                {
                    let mut sb = states[i].to_bytes();
                    proof {
                        lemma_states_bytes_push(states@.take(i as int), states@[i as int]);
                        assert(states@.take(i as int + 1) =~= states@.take(i as int).push(
                            states@[i as int],
                        ));
                    }
                    out.append(&mut sb);
                    i += 1;
                }
                assert(states@.take(n as int) =~= states@);
                out
            },
        }
    }

    /// Decode the frame at the front of a byte slice.
    pub fn read_slice(input: &[u8]) -> (r: Result<Message, DecodeError>)
        ensures
            message_result_view(r) == parse_message(input@),
    {
        let header = match MessageHeader::read_slice(input) {
            Ok(h) => h,
            Err(e) => {
                return Err(e);
            },
        };
        match header.code {
            MessageCode::Text => Self::read_text_message(input, &header),
            MessageCode::Ping => {
                if header.length != 0 {
                    Err(DecodeError::BadLength)
                } else {
                    Ok(Message::Ping)
                }
            },
            MessageCode::ClientUpdate => Self::read_client_update_message(input, &header),
            MessageCode::GameStateUpdate => Self::read_game_state_update_message(input, &header),
        }
    }

    /// Decode a text payload after its header has been parsed.
    pub fn read_text_message(input: &[u8], header: &MessageHeader) -> (r: Result<
        Message,
        DecodeError,
    >)
        requires
            parse_header(input@) == Ok::<MessageHeader, DecodeError>(*header),
            header.code is Text,
        ensures
            message_result_view(r) == parse_message(input@),
    {
        if header.length > 1024 {
            return Err(DecodeError::TextTooLong);
        }
        let n = input.len();
        let count = header.length as usize;
        if n - 9 < count {
            return Err(DecodeError::ShortPayload);
        }
        let payload = copy_bytes(input, 9, count);
        match bytes_to_string(payload) {
            Some(message) => Ok(Message::Text { message }),
            None => Err(DecodeError::BadText),
        }
    }

    /// Decode a client-update payload after its header has been parsed.
    pub fn read_client_update_message(input: &[u8], header: &MessageHeader) -> (r: Result<
        Message,
        DecodeError,
    >)
        requires
            parse_header(input@) == Ok::<MessageHeader, DecodeError>(*header),
            header.code is ClientUpdate,
        ensures
            message_result_view(r) == parse_message(input@),
    {
        if header.length != 20 {
            return Err(DecodeError::BadLength);
        }
        let n = input.len();
        if n - 9 < 20 {
            return Err(DecodeError::ShortPayload);
        }
        let cs = ClientState::read_at(input, 9);
        Ok(Message::ClientUpdate(cs))
    }

    /// Decode a game-state payload after its header has been parsed.
    pub fn read_game_state_update_message(input: &[u8], header: &MessageHeader) -> (r: Result<
        Message,
        DecodeError,
    >)
        requires
            parse_header(input@) == Ok::<MessageHeader, DecodeError>(*header),
            header.code is GameStateUpdate,
        ensures
            message_result_view(r) == parse_message(input@),
    {
        if header.length % 20 != 0 {
            return Err(DecodeError::BadLength);
        }
        let n = input.len();
        if ((n - 9) as u64) < header.length as u64 {
            return Err(DecodeError::ShortPayload);
        }
        let count = (header.length / 20) as usize;
        let ghost target = Seq::new(
            (header.length as int / 20) as nat,
            |i: int| state_of_bytes(input@.subrange(9 + 20 * i, 29 + 20 * i)),
        );
        let mut states: Vec<ClientState> = Vec::new();
        let mut i: usize = 0;
        while i < count
            invariant
                i <= count,
                n == input@.len(),
                count * 20 + 9 <= n,
                states@.len() == i,
                forall|k: int|
                    0 <= k < i ==> states@[k] == state_of_bytes(
                        input@.subrange(9 + 20 * k, 29 + 20 * k),
                    ),
            decreases count - i,
        {
            let cs = ClientState::read_at(input, 9 + 20 * i);
            states.push(cs);
            i += 1;
        }
        proof {
            assert(header.length as int == count * 20) by {
                lemma_div_multiples_vanish(count as int, 20);
            }
            assert(states@ =~= target);
        }
        Ok(Message::GameStateUpdate(states))
    }
}

/// Conversion of a message into its on-wire frame.
pub trait ToFrame {
    /// Whether the value's payload fits a frame's length field.
    spec fn frame_ok(&self) -> bool;

    /// The full wire bytes of the value's frame.
    spec fn spec_frame_bytes(&self) -> Seq<u8>;

    /// Build the frame: a 9-byte header followed by the payload.
    fn to_frame(&self) -> (r: MessageFrame)
        requires
            self.frame_ok(),
        ensures
            r.wf(),
            r@ == self.spec_frame_bytes(),
    ;
}

impl ToFrame for Message {
    open spec fn frame_ok(&self) -> bool {
        wire_ok(self@)
    }

    open spec fn spec_frame_bytes(&self) -> Seq<u8> {
        frame_bytes(self@)
    }

    fn to_frame(&self) -> (r: MessageFrame) {
        let payload = self.to_bytes();
        let header = MessageHeader::new(self.get_message_code(), payload.len() as u32);
        let r = MessageFrame { header, payload };
        assert(r@ =~= frame_bytes(self@));
        r
    }
}

/// A ready-to-send frame: a header and the payload it describes.
pub struct MessageFrame {
    header: MessageHeader,
    payload: Vec<u8>,
}

impl View for MessageFrame {
    type V = Seq<u8>;

    closed spec fn view(&self) -> Seq<u8> {
        header_bytes_of(self.header) + self.payload@
    }
}

impl MessageFrame {
    /// The header's length field counts exactly the payload bytes, and the
    /// magic word is in place.
    pub closed spec fn wf(&self) -> bool {
        self.header.magic == MAGIC_BYTES && self.header.length == self.payload@.len()
    }

    /// The payload carried by this frame.
    pub fn payload(&self) -> (r: &Vec<u8>)
        ensures
            r@ == self@.skip(9),
    {
        proof {
            lemma_header_bytes_parts(self.header);
            assert(self@.skip(9) =~= self.payload@);
        }
        &self.payload
    }

    /// The header of this frame.
    pub fn header(&self) -> (r: MessageHeader)
        ensures
            header_bytes_of(r) == self@.take(9),
    {
        proof {
            lemma_header_bytes_parts(self.header);
            assert(self@.take(9) =~= header_bytes_of(self.header));
        }
        self.header
    }

    /// Serialize the whole frame: header bytes, then payload bytes.
    pub fn to_bytes(&self) -> (r: Vec<u8>)
        ensures
            r@ == self@,
    {
        let mut out = self.header.to_bytes();
        let n = self.payload.len();
        let mut i: usize = 0;
        while i < n
            invariant
                i <= n,
                n == self.payload@.len(),
                out@ == header_bytes_of(self.header) + self.payload@.take(i as int),
            decreases n - i,
        {
            out.push(self.payload[i]);
            assert(out@ =~= header_bytes_of(self.header) + self.payload@.take(i as int + 1));
            i += 1;
        }
        assert(out@ =~= self@);
        out
    }
}

/// Law: every encoded frame starts with the four magic bytes `LAG!`.
pub proof fn lemma_frame_magic(m: MessageView)
    ensures
        frame_bytes(m).len() >= 4,
        frame_bytes(m)[0] == 0x4C,
        frame_bytes(m)[1] == 0x41,
        frame_bytes(m)[2] == 0x47,
        frame_bytes(m)[3] == 0x21,
{
    assert((0x4C414721u32 >> 24) & 0xff == 0x4C) by (bit_vector);
    assert((0x4C414721u32 >> 16) & 0xff == 0x41) by (bit_vector);
    assert((0x4C414721u32 >> 8) & 0xff == 0x47) by (bit_vector);
    assert(0x4C414721u32 & 0xff == 0x21) by (bit_vector);
}

/// Law: bytes 5..9 of an encoded frame hold the payload byte count,
/// big-endian.
pub proof fn lemma_frame_length_field(m: MessageView)
    requires
        wire_ok(m),
    ensures
        be_u32_val(frame_bytes(m).subrange(5, 9)) == payload_bytes(m).len(),
{
    let h = MessageHeader {
        magic: MAGIC_BYTES,
        code: message_code_of(m),
        length: payload_bytes(m).len() as u32,
    };
    lemma_header_bytes_parts(h);
    assert(frame_bytes(m).subrange(5, 9) =~= header_bytes_of(h).subrange(5, 9));
    lemma_u32_be_round_trip(h.length);
}

/// Law: decoding an encoded frame yields the original message, all
/// fields equal.
pub proof fn lemma_frame_round_trip(m: MessageView)
    requires
        wf_message(m),
    ensures
        parse_message(frame_bytes(m)) == Ok::<MessageView, DecodeError>(m),
{
    let b = frame_bytes(m);
    let plen = payload_bytes(m).len() as int;
    let h = MessageHeader {
        magic: MAGIC_BYTES,
        code: message_code_of(m),
        length: payload_bytes(m).len() as u32,
    };
    lemma_header_bytes_parts(h);
    assert(b.len() == 9 + plen);
    assert(b.subrange(0, 4) =~= u32_be_bytes(h.magic));
    assert(b.subrange(5, 9) =~= u32_be_bytes(h.length));
    assert(b[4] == code_byte(h.code));
    lemma_u32_be_round_trip(h.magic);
    lemma_u32_be_round_trip(h.length);
    lemma_code_byte_round_trip(h.code);
    assert(parse_header(b) == Ok::<MessageHeader, DecodeError>(h));
    assert(h.length as int == plen);
    let p = b.subrange(9, 9 + plen);
    assert(p =~= payload_bytes(m));
    match m {
        MessageView::Ping => {
        },
        MessageView::Text { message } => {
            encode_utf8_valid_utf8(message);
            encode_utf8_decode_utf8(message);
        },
        MessageView::ClientUpdate(cs) => {
            lemma_state_bytes_len(cs);
            lemma_state_round_trip(cs);
        },
        MessageView::GameStateUpdate(states) => {
            let n = states.len() as int;
            lemma_states_bytes_len(states);
            assert(plen == 20 * n);
            lemma_mod_multiples_basic(n, 20);
            assert((n * 20) % 20 == 0);
            assert(plen % 20 == 0);
            lemma_div_multiples_vanish(n, 20);
            assert(plen / 20 == n);
            let decoded = Seq::new(
                (plen / 20) as nat,
                |i: int| state_of_bytes(b.subrange(9 + 20 * i, 29 + 20 * i)),
            );
            assert forall|i: int| 0 <= i < n implies decoded[i] == states[i] by {
                lemma_states_bytes_index(states, i);
                assert(b.subrange(9 + 20 * i, 29 + 20 * i) =~= states_bytes(states).subrange(
                    20 * i,
                    20 * i + 20,
                ));
                lemma_state_round_trip(states[i]);
            }
            assert(decoded =~= states);
        },
    }
}

} // verus!
