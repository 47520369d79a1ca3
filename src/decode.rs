//! Decoding of frame bodies, with every length checked against the bytes
//! that remain before it is trusted.
use vstd::prelude::*;
use vstd::slice::slice_subrange;
use vstd::string::StringSliceAdditionalSpecFns;
use vstd::utf8::*;
use crate::wire::{
    decoded, decoded_from, pairs_view, parse_message, parse_pairs, parse_payload, parse_str, parse_u32, parse_u64,
    parse_u8, Fault, Message, MsgPayload, TAG_TEXT, TAG_VALUES,
};

verus! {

#[verifier::external_type_specification]
#[verifier::external_body]
pub struct ExUtf8Error(core::str::Utf8Error);

/// What can go wrong with the data a viewer receives.
#[derive(Debug)]
pub enum Error {
    /// The peer speaks a protocol version other than the supported one.
    BadVersion,
    /// A string field is not valid UTF-8.
    BadUtf8(core::str::Utf8Error),
    /// The frame is truncated, has an unknown payload tag, or a length that
    /// runs past its end.
    CorruptMsg,
}

/// Relies on the `Display` text std gives a `Utf8Error` (where the invalid
/// bytes start and how many there are). Nothing is assumed of the text.
#[verifier::external_body]
fn utf8_error_text(e: &core::str::Utf8Error) -> String {
    e.to_string()
}

impl Error {
    /// A sentence that says what went wrong.
    pub fn message(&self) -> (r: String)
        ensures
            self is BadVersion ==> r@ == "This library only supports protocol version 1"@,
            self is CorruptMsg ==> r@ == "The message payload was corrupted"@,
    {
        match self {
            Error::BadVersion => "This library only supports protocol version 1".to_owned(),
            Error::BadUtf8(e) => utf8_error_text(e),
            Error::CorruptMsg => "The message payload was corrupted".to_owned(),
        }
    }
}

/// Whether `e` is the error that stands for `f`.
pub open spec fn is_fault(e: Error, f: Fault) -> bool {
    match f {
        Fault::Corrupt => e is CorruptMsg,
        Fault::Utf8 => e is BadUtf8,
    }
}

/// Relies on std::str::from_utf8: it succeeds exactly on valid UTF-8, and
/// the string it gives has those bytes.
#[verifier::external_body]
fn utf8_str(b: &[u8]) -> (r: Result<&str, core::str::Utf8Error>)
    ensures
        r is Ok <==> valid_utf8(b@),
        r matches Ok(s) ==> s.spec_bytes() == b@,
{
    core::str::from_utf8(b)
}

/// The payload tags the format knows.
pub enum MsgPayloadVal {
    Message,
    Values,
}

impl MsgPayloadVal {
    /// The payload kind named by a tag byte.
    pub fn from_tag(value: u8) -> (r: Result<MsgPayloadVal, Error>)
        ensures
            value == TAG_TEXT ==> r matches Ok(MsgPayloadVal::Message),
            value == TAG_VALUES ==> r matches Ok(MsgPayloadVal::Values),
            value != TAG_TEXT && value != TAG_VALUES ==> r matches Err(Error::CorruptMsg),
    {
        if value == TAG_TEXT {
            Ok(MsgPayloadVal::Message)
        } else if value == TAG_VALUES {
            Ok(MsgPayloadVal::Values)
        } else {
            Err(Error::CorruptMsg)
        }
    }

    /// Reads a tag byte and names its payload kind.
    pub fn from_buffer(buffer: &mut ByteBuffer) -> (r: Result<MsgPayloadVal, Error>)
        requires
            old(buffer).wf(),
        ensures
            final(buffer).wf(),
            final(buffer).bytes() == old(buffer).bytes(),
            match parse_u8(old(buffer).bytes(), old(buffer).pos()) {
                Err(f) => r matches Err(e) && is_fault(e, f),
                Ok((tag, q)) => final(buffer).pos() == q && if tag == TAG_TEXT {
                    r matches Ok(MsgPayloadVal::Message)
                } else if tag == TAG_VALUES {
                    r matches Ok(MsgPayloadVal::Values)
                } else {
                    r matches Err(Error::CorruptMsg)
                },
            },
    {
        match buffer.read_u8() {
            Ok(tag) => Self::from_tag(tag),
            Err(e) => Err(e),
        }
    }
}

/// Bytes of one frame and a read position in them.
pub struct ByteBuffer {
    buffer: Vec<u8>,
    idx: usize,
}

impl ByteBuffer {
    pub closed spec fn bytes(&self) -> Seq<u8> {
        self.buffer@
    }

    pub closed spec fn pos(&self) -> int {
        self.idx as int
    }

    pub open spec fn wf(&self) -> bool {
        0 <= self.pos() <= self.bytes().len()
    }

    /// An empty buffer.
    pub fn new(capacity: usize) -> (r: Self)
        ensures
            r.wf(),
            r.bytes() == Seq::<u8>::empty(),
            r.pos() == 0,
    {
        Self::from_vec(Vec::with_capacity(capacity))
    }

    /// A buffer over `buffer`, read from its start.
    pub fn from_vec(buffer: Vec<u8>) -> (r: Self)
        ensures
            r.wf(),
            r.bytes() == buffer@,
            r.pos() == 0,
    {
        Self { buffer, idx: 0 }
    }

    /// The next `len` bytes, if that many remain.
    pub fn as_slice(&mut self, len: usize) -> (r: Result<&[u8], Error>)
        requires
            old(self).wf(),
        ensures
            final(self).wf(),
            final(self).bytes() == old(self).bytes(),
            old(self).pos() + len <= old(self).bytes().len() ==> {
                &&& r matches Ok(s)
                &&& s@ == old(self).bytes().subrange(old(self).pos(), old(self).pos() + len)
                &&& final(self).pos() == old(self).pos() + len
            },
            old(self).pos() + len > old(self).bytes().len() ==> (r matches Err(Error::CorruptMsg)
                && final(self).pos() == old(self).pos()),
    {
        if len <= self.buffer.len() - self.idx {
            let start = self.idx;
            self.idx = start + len;
            Ok(slice_subrange(self.buffer.as_slice(), start, start + len))
        } else {
            Err(Error::CorruptMsg)
        }
    }

    /// Whether every byte has been read.
    pub fn at_end(&self) -> (r: bool)
        requires
            self.wf(),
        ensures
            r == (self.pos() == self.bytes().len()),
    {
        self.idx == self.buffer.len()
    }

    /// The next byte.
    pub fn read_u8(&mut self) -> (r: Result<u8, Error>)
        requires
            old(self).wf(),
        ensures
            final(self).wf(),
            final(self).bytes() == old(self).bytes(),
            match parse_u8(old(self).bytes(), old(self).pos()) {
                Ok((v, q)) => r == Ok::<u8, Error>(v) && final(self).pos() == q,
                Err(f) => r matches Err(e) && is_fault(e, f) && final(self).pos() == old(self).pos(),
            },
    {
        match self.as_slice(1) {
            Ok(s) => Ok(s[0]),
            Err(e) => Err(e),
        }
    }

    /// The next eight bytes as a big-endian number.
    pub fn read_u64(&mut self) -> (r: Result<u64, Error>)
        requires
            old(self).wf(),
        ensures
            final(self).wf(),
            final(self).bytes() == old(self).bytes(),
            match parse_u64(old(self).bytes(), old(self).pos()) {
                Ok((v, q)) => r == Ok::<u64, Error>(v) && final(self).pos() == q,
                Err(f) => r matches Err(e) && is_fault(e, f) && final(self).pos() == old(self).pos(),
            },
    {
        match self.as_slice(8) {
            Ok(s) => Ok(((s[0] as u64) << 56u64) | ((s[1] as u64) << 48u64) | ((s[2] as u64)
                << 40u64) | ((s[3] as u64) << 32u64) | ((s[4] as u64) << 24u64) | ((s[5] as u64)
                << 16u64) | ((s[6] as u64) << 8u64) | (s[7] as u64)),
            Err(e) => Err(e),
        }
    }

    /// The next four bytes as a big-endian number.
    pub fn read_u32(&mut self) -> (r: Result<u32, Error>)
        requires
            old(self).wf(),
        ensures
            final(self).wf(),
            final(self).bytes() == old(self).bytes(),
            match parse_u32(old(self).bytes(), old(self).pos()) {
                Ok((v, q)) => r == Ok::<u32, Error>(v) && final(self).pos() == q,
                Err(f) => r matches Err(e) && is_fault(e, f) && final(self).pos() == old(self).pos(),
            },
    {
        match self.as_slice(4) {
            Ok(s) => Ok(((s[0] as u32) << 24u32) | ((s[1] as u32) << 16u32) | ((s[2] as u32)
                << 8u32) | (s[3] as u32)),
            Err(e) => Err(e),
        }
    }

    /// The next length-prefixed UTF-8 string.
    pub fn read_str(&mut self) -> (r: Result<String, Error>)
        requires
            old(self).wf(),
        ensures
            final(self).wf(),
            final(self).bytes() == old(self).bytes(),
            match parse_str(old(self).bytes(), old(self).pos()) {
                Ok((v, q)) => r matches Ok(s) && s@ == v && final(self).pos() == q,
                Err(f) => r matches Err(e) && is_fault(e, f),
            },
    {
        let len = match self.read_u32() {
            Ok(len) => len,
            Err(e) => return Err(e),
        };
        let raw = match self.as_slice(len as usize) {
            Ok(raw) => raw,
            Err(e) => return Err(e),
        };
        match utf8_str(raw) {
            Ok(s) => {
                proof {
                    encode_utf8_decode_utf8(s@);
                }
                Ok(s.to_owned())
            },
            Err(e) => Err(Error::BadUtf8(e)),
        }
    }
}

/// Once reading pairs has failed, reading more of them fails the same way.
proof fn lemma_parse_pairs_err(b: Seq<u8>, p: int, k: nat, n: nat)
    requires
        k <= n,
        parse_pairs(b, p, k) is Err,
    ensures
        parse_pairs(b, p, n) == parse_pairs(b, p, k),
    decreases n - k,
{
    if k < n {
        lemma_parse_pairs_err(b, p, k, (n - 1) as nat);
    }
}

impl MsgPayload {
    /// Reads a payload: its tag, then its text or its name/value pairs.
    pub fn from_buffer(buffer: &mut ByteBuffer) -> (r: Result<Self, Error>)
        requires
            old(buffer).wf(),
        ensures
            final(buffer).wf(),
            final(buffer).bytes() == old(buffer).bytes(),
            match parse_payload(old(buffer).bytes(), old(buffer).pos()) {
                Ok((v, q)) => r matches Ok(p) && p@ == v && final(buffer).pos() == q,
                Err(f) => r matches Err(e) && is_fault(e, f),
            },
    {
        let ghost b = buffer.bytes();
        match MsgPayloadVal::from_buffer(buffer) {
            Err(e) => Err(e),
            Ok(MsgPayloadVal::Message) => match buffer.read_str() {
                Ok(s) => Ok(MsgPayload::Message(s)),
                Err(e) => Err(e),
            },
            Ok(MsgPayloadVal::Values) => {
                let len = match buffer.read_u32() {
                    Ok(len) => len,
                    Err(e) => return Err(e),
                };
                let ghost p0 = buffer.pos();
                // Grown one pair at a time: a count is not trusted for an
                // allocation before the bytes behind it have been read.
                let mut values: Vec<(String, String)> = Vec::new();
                let mut failure: Option<Error> = None;
                let mut i: u32 = 0;
                proof {
                    assert(pairs_view(values@) =~= Seq::empty());
                }
                while i < len && failure.is_none()
                    invariant
                        buffer.wf(),
                        buffer.bytes() == b,
                        i <= len,
                        failure is None ==> parse_pairs(b, p0, i as nat) == Ok::<
                            (Seq<(Seq<char>, Seq<char>)>, int),
                            Fault,
                        >((pairs_view(values@), buffer.pos())),
                        failure matches Some(e) ==> parse_pairs(b, p0, len as nat) matches Err(f)
                            && is_fault(e, f),
                    decreases len - i, (if failure is None { 1int } else { 0int }),
                {
                    let ghost q = buffer.pos();
                    match buffer.read_str() {
                        Err(e) => {
                            proof {
                                lemma_parse_pairs_err(b, p0, (i + 1) as nat, len as nat);
                            }
                            failure = Some(e);
                        },
                        Ok(name) => match buffer.read_str() {
                            Err(e) => {
                                proof {
                                    lemma_parse_pairs_err(b, p0, (i + 1) as nat, len as nat);
                                }
                                failure = Some(e);
                            },
                            Ok(val) => {
                                let ghost old_values = values@;
                                values.push((name, val));
                                proof {
                                    assert(pairs_view(values@) =~= pairs_view(old_values).push(
                                        (values@.last().0@, values@.last().1@),
                                    ));
                                }
                                i = i + 1;
                            },
                        },
                    }
                }
                if let Some(e) = failure {
                    return Err(e);
                }
                Ok(MsgPayload::Values(values))
            },
        }
    }
}

impl Message {
    /// Decodes a whole frame body, the bytes of `buffer` from its read
    /// position on: time, thread id, file name, line, payload. Bytes left
    /// over after the payload make the frame corrupt.
    pub fn from_buffer(buffer: &mut ByteBuffer) -> (r: Result<Message, Error>)
        requires
            old(buffer).wf(),
        ensures
            final(buffer).wf(),
            final(buffer).bytes() == old(buffer).bytes(),
            match decoded_from(old(buffer).bytes(), old(buffer).pos()) {
                Ok(v) => r matches Ok(m) && m@ == v && final(buffer).pos() == final(buffer).bytes().len(),
                Err(f) => r matches Err(e) && is_fault(e, f),
            },
    {
        match Self::read_fields(buffer) {
            Ok(m) => if buffer.at_end() {
                Ok(m)
            } else {
                Err(Error::CorruptMsg)
            },
            Err(e) => Err(e),
        }
    }

    /// Reads the fields of one message from the read position on, leaving
    /// the position just after them; bytes after them are not looked at.
    pub fn read_fields(buffer: &mut ByteBuffer) -> (r: Result<Message, Error>)
        requires
            old(buffer).wf(),
        ensures
            final(buffer).wf(),
            final(buffer).bytes() == old(buffer).bytes(),
            match parse_message(old(buffer).bytes(), old(buffer).pos()) {
                Ok((v, q)) => r matches Ok(m) && m@ == v && final(buffer).pos() == q,
                Err(f) => r matches Err(e) && is_fault(e, f),
            },
    {
        let time = match buffer.read_u64() {
            Ok(v) => v,
            Err(e) => return Err(e),
        };
        let thread_id = match buffer.read_str() {
            Ok(v) => v,
            Err(e) => return Err(e),
        };
        let filename = match buffer.read_str() {
            Ok(v) => v,
            Err(e) => return Err(e),
        };
        let line = match buffer.read_u32() {
            Ok(v) => v,
            Err(e) => return Err(e),
        };
        let payload = match MsgPayload::from_buffer(buffer) {
            Ok(v) => v,
            Err(e) => return Err(e),
        };
        Ok(Message { time, thread_id, filename, line, payload })
    }
}

/// Decodes one frame body (the bytes after its length field); bytes left
/// over after the payload make the frame corrupt.
pub fn decode(body: Vec<u8>) -> (r: Result<Message, Error>)
    ensures
        match decoded(body@) {
            Ok(m) => r matches Ok(x) && x@ == m,
            Err(f) => r matches Err(e) && is_fault(e, f),
        },
{
    let mut buffer = ByteBuffer::from_vec(body);
    Message::from_buffer(&mut buffer)
}

/// A pair count larger than the number of pairs the bytes hold makes the
/// frame corrupt: once complete pairs have used up every byte, asking for
/// more of them fails with `Corrupt`, never reading past the end.
pub proof fn count_beyond_bytes_is_corrupt(b: Seq<u8>, p: int, k: nat, n: nat)
    requires
        k < n,
        parse_pairs(b, p, k) matches Ok((_, q)) && q == b.len(),
    ensures
        parse_pairs(b, p, n) == Err::<(Seq<(Seq<char>, Seq<char>)>, int), Fault>(Fault::Corrupt),
{
    lemma_parse_pairs_err(b, p, k + 1, n);
}

} // verus!
