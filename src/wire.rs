//! The wire format: big-endian integers, length-prefixed UTF-8 strings,
//! and the frame layout of one debug message.
use vstd::prelude::*;
use vstd::utf8::*;

verus! {

/// Size in bytes of every length or count field on the wire.
pub const LEN_FIELD_SIZE: usize = 4;

/// Protocol version byte sent at the start of every connection.
pub const WIRE_PROTOCOL_VERSION: u8 = 1;

/// Payload tag of a formatted text message.
pub const TAG_TEXT: u8 = 1;

/// Payload tag of a list of name/value pairs.
pub const TAG_VALUES: u8 = 2;

/// The four big-endian bytes of `x`.
pub open spec fn be32(x: u32) -> Seq<u8> {
    seq![(x >> 24u32) as u8, (x >> 16u32) as u8, (x >> 8u32) as u8, x as u8]
}

/// The eight big-endian bytes of `x`.
pub open spec fn be64(x: u64) -> Seq<u8> {
    seq![
        (x >> 56u64) as u8,
        (x >> 48u64) as u8,
        (x >> 40u64) as u8,
        (x >> 32u64) as u8,
        (x >> 24u64) as u8,
        (x >> 16u64) as u8,
        (x >> 8u64) as u8,
        x as u8,
    ]
}

/// The number whose big-endian bytes are the four bytes of `b`.
pub open spec fn be32_value(b: Seq<u8>) -> u32 {
    ((b[0] as u32) << 24u32) | ((b[1] as u32) << 16u32) | ((b[2] as u32) << 8u32) | (b[3] as u32)
}

/// The number whose big-endian bytes are the eight bytes of `b`.
pub open spec fn be64_value(b: Seq<u8>) -> u64 {
    ((b[0] as u64) << 56u64) | ((b[1] as u64) << 48u64) | ((b[2] as u64) << 40u64) | ((b[3] as u64)
        << 32u64) | ((b[4] as u64) << 24u64) | ((b[5] as u64) << 16u64) | ((b[6] as u64) << 8u64)
        | (b[7] as u64)
}

proof fn lemma_be32_round_trip(x: u32)
    ensures
        be32(x).len() == 4,
        be32_value(be32(x)) == x,
{
    let b0 = (x >> 24u32) as u8;
    let b1 = (x >> 16u32) as u8;
    let b2 = (x >> 8u32) as u8;
    let b3 = x as u8;
    assert((((b0 as u32) << 24u32) | ((b1 as u32) << 16u32) | ((b2 as u32) << 8u32) | (b3 as u32))
        == x) by (bit_vector)
        requires
            b0 == (x >> 24u32) as u8,
            b1 == (x >> 16u32) as u8,
            b2 == (x >> 8u32) as u8,
            b3 == x as u8,
    ;
}

proof fn lemma_be64_round_trip(x: u64)
    ensures
        be64(x).len() == 8,
        be64_value(be64(x)) == x,
{
    let b0 = (x >> 56u64) as u8;
    let b1 = (x >> 48u64) as u8;
    let b2 = (x >> 40u64) as u8;
    let b3 = (x >> 32u64) as u8;
    let b4 = (x >> 24u64) as u8;
    let b5 = (x >> 16u64) as u8;
    let b6 = (x >> 8u64) as u8;
    let b7 = x as u8;
    assert((((b0 as u64) << 56u64) | ((b1 as u64) << 48u64) | ((b2 as u64) << 40u64) | ((b3 as u64)
        << 32u64) | ((b4 as u64) << 24u64) | ((b5 as u64) << 16u64) | ((b6 as u64) << 8u64) | (b7 as u64))
        == x) by (bit_vector)
        requires
            b0 == (x >> 56u64) as u8,
            b1 == (x >> 48u64) as u8,
            b2 == (x >> 40u64) as u8,
            b3 == (x >> 32u64) as u8,
            b4 == (x >> 24u64) as u8,
            b5 == (x >> 16u64) as u8,
            b6 == (x >> 8u64) as u8,
            b7 == x as u8,
    ;
}

/// The payload of a debug message: formatted text, or name/value pairs in
/// the order they were given (names need not be unique).
#[derive(Clone, Debug, PartialEq, Eq)]
pub enum MsgPayload {
    Message(String),
    Values(Vec<(String, String)>),
}

/// One decoded debug message.
#[derive(Clone, Debug, PartialEq, Eq)]
pub struct Message {
    /// Milliseconds since the epoch when the message was made.
    pub time: u64,
    pub thread_id: String,
    pub filename: String,
    pub line: u32,
    pub payload: MsgPayload,
}

pub enum PayloadModel {
    Text(Seq<char>),
    Values(Seq<(Seq<char>, Seq<char>)>),
}

pub struct MessageModel {
    pub time: u64,
    pub thread_id: Seq<char>,
    pub filename: Seq<char>,
    pub line: u32,
    pub payload: PayloadModel,
}

pub open spec fn pairs_view(v: Seq<(String, String)>) -> Seq<(Seq<char>, Seq<char>)> {
    v.map_values(|p: (String, String)| (p.0@, p.1@))
}

impl View for MsgPayload {
    type V = PayloadModel;

    open spec fn view(&self) -> PayloadModel {
        match self {
            MsgPayload::Message(s) => PayloadModel::Text(s@),
            MsgPayload::Values(v) => PayloadModel::Values(pairs_view(v@)),
        }
    }
}

impl View for Message {
    type V = MessageModel;

    open spec fn view(&self) -> MessageModel {
        MessageModel {
            time: self.time,
            thread_id: self.thread_id@,
            filename: self.filename@,
            line: self.line,
            payload: self.payload@,
        }
    }
}

// ---- encoding ----

/// A string on the wire: its UTF-8 byte length, then those bytes.
pub open spec fn enc_str(s: Seq<char>) -> Seq<u8> {
    be32(encode_utf8(s).len() as u32) + encode_utf8(s)
}

/// Name/value pairs on the wire, each as name then value.
pub open spec fn enc_pairs(ps: Seq<(Seq<char>, Seq<char>)>) -> Seq<u8>
    decreases ps.len(),
{
    if ps.len() == 0 {
        Seq::empty()
    } else {
        enc_pairs(ps.drop_last()) + enc_str(ps.last().0) + enc_str(ps.last().1)
    }
}

/// A payload on the wire: its tag, then its body.
pub open spec fn enc_payload(p: PayloadModel) -> Seq<u8> {
    match p {
        PayloadModel::Text(s) => seq![TAG_TEXT] + enc_str(s),
        PayloadModel::Values(ps) => seq![TAG_VALUES] + be32(ps.len() as u32) + enc_pairs(ps),
    }
}

/// Everything of a frame after its leading length field.
pub open spec fn enc_body(m: MessageModel) -> Seq<u8> {
    be64(m.time) + enc_str(m.thread_id) + enc_str(m.filename) + be32(m.line) + enc_payload(
        m.payload,
    )
}

/// The whole frame of a message: the length of its body, then the body.
pub open spec fn enc_frame(m: MessageModel) -> Seq<u8> {
    be32(enc_body(m).len() as u32) + enc_body(m)
}

/// A message whose body length fits the frame's `u32` length field (and so
/// do every string length and the pair count inside it).
pub open spec fn encodable(m: MessageModel) -> bool {
    enc_body(m).len() <= u32::MAX
}

// ---- decoding ----

/// Why a frame could not be decoded.
pub enum Fault {
    Corrupt,
    Utf8,
}

pub open spec fn parse_u8(b: Seq<u8>, p: int) -> Result<(u8, int), Fault> {
    if 0 <= p && p + 1 <= b.len() {
        Ok((b[p], p + 1))
    } else {
        Err(Fault::Corrupt)
    }
}

pub open spec fn parse_u32(b: Seq<u8>, p: int) -> Result<(u32, int), Fault> {
    if 0 <= p && p + 4 <= b.len() {
        Ok((be32_value(b.subrange(p, p + 4)), p + 4))
    } else {
        Err(Fault::Corrupt)
    }
}

pub open spec fn parse_u64(b: Seq<u8>, p: int) -> Result<(u64, int), Fault> {
    if 0 <= p && p + 8 <= b.len() {
        Ok((be64_value(b.subrange(p, p + 8)), p + 8))
    } else {
        Err(Fault::Corrupt)
    }
}

pub open spec fn parse_str(b: Seq<u8>, p: int) -> Result<(Seq<char>, int), Fault> {
    match parse_u32(b, p) {
        Err(f) => Err(f),
        Ok((n, q)) => if q + n <= b.len() {
            if valid_utf8(b.subrange(q, q + n)) {
                Ok((decode_utf8(b.subrange(q, q + n)), q + n))
            } else {
                Err(Fault::Utf8)
            }
        } else {
            Err(Fault::Corrupt)
        },
    }
}

/// The first `n` name/value pairs from position `p` on.
pub open spec fn parse_pairs(b: Seq<u8>, p: int, n: nat) -> Result<
    (Seq<(Seq<char>, Seq<char>)>, int),
    Fault,
>
    decreases n,
{
    if n == 0 {
        Ok((Seq::empty(), p))
    } else {
        match parse_pairs(b, p, (n - 1) as nat) {
            Err(f) => Err(f),
            Ok((ps, q)) => match parse_str(b, q) {
                Err(f) => Err(f),
                Ok((k, q1)) => match parse_str(b, q1) {
                    Err(f) => Err(f),
                    Ok((v, q2)) => Ok((ps.push((k, v)), q2)),
                },
            },
        }
    }
}

pub open spec fn parse_payload(b: Seq<u8>, p: int) -> Result<(PayloadModel, int), Fault> {
    match parse_u8(b, p) {
        Err(f) => Err(f),
        Ok((tag, q)) => if tag == TAG_TEXT {
            match parse_str(b, q) {
                Err(f) => Err(f),
                Ok((s, q1)) => Ok((PayloadModel::Text(s), q1)),
            }
        } else if tag == TAG_VALUES {
            match parse_u32(b, q) {
                Err(f) => Err(f),
                Ok((n, q1)) => match parse_pairs(b, q1, n as nat) {
                    Err(f) => Err(f),
                    Ok((ps, q2)) => Ok((PayloadModel::Values(ps), q2)),
                },
            }
        } else {
            Err(Fault::Corrupt)
        },
    }
}

/// A message body (a frame without its length field) from position `p` on.
pub open spec fn parse_message(b: Seq<u8>, p: int) -> Result<(MessageModel, int), Fault> {
    match parse_u64(b, p) {
        Err(f) => Err(f),
        Ok((time, q0)) => match parse_str(b, q0) {
            Err(f) => Err(f),
            Ok((thread_id, q1)) => match parse_str(b, q1) {
                Err(f) => Err(f),
                Ok((filename, q2)) => match parse_u32(b, q2) {
                    Err(f) => Err(f),
                    Ok((line, q3)) => match parse_payload(b, q3) {
                        Err(f) => Err(f),
                        Ok((payload, q4)) => Ok(
                            (MessageModel { time, thread_id, filename, line, payload }, q4),
                        ),
                    },
                },
            },
        },
    }
}

/// What the bytes of `b` from position `p` on decode to as one frame body:
/// a message that takes up exactly those bytes.
pub open spec fn decoded_from(b: Seq<u8>, p: int) -> Result<MessageModel, Fault> {
    match parse_message(b, p) {
        Err(f) => Err(f),
        Ok((m, q)) => if q == b.len() {
            Ok(m)
        } else {
            Err(Fault::Corrupt)
        },
    }
}

/// What a frame body decodes to: a message that takes up exactly the body.
pub open spec fn decoded(b: Seq<u8>) -> Result<MessageModel, Fault> {
    decoded_from(b, 0)
}

/// What a whole frame decodes to: its length field must state the length of
/// the bytes behind it, which must decode.
pub open spec fn decoded_frame(f: Seq<u8>) -> Result<MessageModel, Fault> {
    match parse_u32(f, 0) {
        Err(e) => Err(e),
        Ok((n, q)) => if q + n == f.len() {
            decoded(f.subrange(q, f.len() as int))
        } else {
            Err(Fault::Corrupt)
        },
    }
}

// ---- the round trip ----

proof fn lemma_split(b: Seq<u8>, p: int, x: Seq<u8>, y: Seq<u8>)
    requires
        0 <= p,
        p + x.len() + y.len() <= b.len(),
        b.subrange(p, p + x.len() + y.len()) == x + y,
    ensures
        b.subrange(p, p + x.len()) == x,
        b.subrange(p + x.len(), p + x.len() + y.len()) == y,
{
    assert(b.subrange(p, p + x.len()) =~= b.subrange(p, p + x.len() + y.len()).subrange(
        0,
        x.len() as int,
    ));
    assert(b.subrange(p + x.len(), p + x.len() + y.len()) =~= b.subrange(
        p,
        p + x.len() + y.len(),
    ).subrange(x.len() as int, (x.len() + y.len()) as int));
}

proof fn lemma_parse_str_at(b: Seq<u8>, p: int, s: Seq<char>)
    requires
        0 <= p,
        encode_utf8(s).len() <= u32::MAX,
        p + enc_str(s).len() <= b.len(),
        b.subrange(p, p + enc_str(s).len()) == enc_str(s),
    ensures
        parse_str(b, p) == Ok::<(Seq<char>, int), Fault>((s, p + enc_str(s).len())),
{
    let n = encode_utf8(s).len();
    lemma_be32_round_trip(n as u32);
    lemma_split(b, p, be32(n as u32), encode_utf8(s));
    assert(b.subrange(p, p + 4) == be32(n as u32));
    encode_utf8_valid_utf8(s);
    encode_utf8_decode_utf8(s);
}

proof fn lemma_enc_pairs_len(ps: Seq<(Seq<char>, Seq<char>)>)
    ensures
        enc_pairs(ps).len() >= 8 * ps.len(),
    decreases ps.len(),
{
    if ps.len() > 0 {
        lemma_enc_pairs_len(ps.drop_last());
        lemma_be32_round_trip(encode_utf8(ps.last().0).len() as u32);
        lemma_be32_round_trip(encode_utf8(ps.last().1).len() as u32);
    }
}

proof fn lemma_parse_pairs_at(b: Seq<u8>, p: int, ps: Seq<(Seq<char>, Seq<char>)>)
    requires
        0 <= p,
        enc_pairs(ps).len() <= u32::MAX,
        p + enc_pairs(ps).len() <= b.len(),
        b.subrange(p, p + enc_pairs(ps).len()) == enc_pairs(ps),
    ensures
        parse_pairs(b, p, ps.len()) == Ok::<(Seq<(Seq<char>, Seq<char>)>, int), Fault>(
            (ps, p + enc_pairs(ps).len()),
        ),
    decreases ps.len(),
{
    if ps.len() == 0 {
        assert(ps =~= Seq::empty());
    } else {
        let init = ps.drop_last();
        let (k, v) = ps.last();
        let a = enc_pairs(init);
        let q = p + a.len();
        lemma_split(b, p, a + enc_str(k), enc_str(v));
        lemma_split(b, p, a, enc_str(k));
        lemma_parse_pairs_at(b, p, init);
        lemma_be32_round_trip(encode_utf8(k).len() as u32);
        lemma_be32_round_trip(encode_utf8(v).len() as u32);
        lemma_parse_str_at(b, q, k);
        lemma_parse_str_at(b, q + enc_str(k).len(), v);
        assert(init.push((k, v)) =~= ps);
    }
}

proof fn lemma_parse_payload_at(b: Seq<u8>, p: int, pl: PayloadModel)
    requires
        0 <= p,
        enc_payload(pl).len() <= u32::MAX,
        p + enc_payload(pl).len() <= b.len(),
        b.subrange(p, p + enc_payload(pl).len()) == enc_payload(pl),
    ensures
        parse_payload(b, p) == Ok::<(PayloadModel, int), Fault>((pl, p + enc_payload(pl).len())),
{
    match pl {
        PayloadModel::Text(s) => {
            lemma_split(b, p, seq![TAG_TEXT], enc_str(s));
            assert(b[p] == b.subrange(p, p + 1)[0]);
            lemma_be32_round_trip(encode_utf8(s).len() as u32);
            lemma_parse_str_at(b, p + 1, s);
        },
        PayloadModel::Values(ps) => {
            let n = ps.len();
            lemma_enc_pairs_len(ps);
            lemma_be32_round_trip(n as u32);
            lemma_split(b, p, seq![TAG_VALUES] + be32(n as u32), enc_pairs(ps));
            lemma_split(b, p, seq![TAG_VALUES], be32(n as u32));
            assert(b[p] == b.subrange(p, p + 1)[0]);
            lemma_parse_pairs_at(b, p + 5, ps);
        },
    }
}

proof fn lemma_decode_body(m: MessageModel)
    requires
        encodable(m),
    ensures
        decoded(enc_body(m)) == Ok::<MessageModel, Fault>(m),
{
    let b = enc_body(m);
    let t = be64(m.time) + enc_str(m.thread_id);
    let tf = t + enc_str(m.filename);
    let tfl = tf + be32(m.line);
    lemma_be64_round_trip(m.time);
    lemma_be32_round_trip(m.line);
    assert(b.subrange(0, b.len() as int) =~= b);
    lemma_split(b, 0, tfl, enc_payload(m.payload));
    lemma_split(b, 0, tf, be32(m.line));
    lemma_split(b, 0, t, enc_str(m.filename));
    lemma_split(b, 0, be64(m.time), enc_str(m.thread_id));
    lemma_be32_round_trip(encode_utf8(m.thread_id).len() as u32);
    lemma_be32_round_trip(encode_utf8(m.filename).len() as u32);
    assert(parse_u64(b, 0) == Ok::<(u64, int), Fault>((m.time, 8)));
    lemma_parse_str_at(b, 8, m.thread_id);
    lemma_parse_str_at(b, t.len() as int, m.filename);
    assert(parse_u32(b, tf.len() as int) == Ok::<(u32, int), Fault>((m.line, tfl.len() as int)));
    lemma_parse_payload_at(b, tfl.len() as int, m.payload);
}

/// Decoding a message's frame gives back the message, field for field: the
/// length field states the length of the body, and the body decodes to the
/// message with no byte left over.
pub proof fn decode_inverts_encode(m: MessageModel)
    requires
        encodable(m),
    ensures
        decoded_frame(enc_frame(m)) == Ok::<MessageModel, Fault>(m),
        decoded(enc_body(m)) == Ok::<MessageModel, Fault>(m),
{
    let b = enc_body(m);
    lemma_decode_body(m);
    let f = enc_frame(m);
    lemma_be32_round_trip(b.len() as u32);
    assert(f.subrange(0, 4) =~= be32(b.len() as u32));
    assert(f.subrange(4, f.len() as int) =~= b);
}

} // verus!
