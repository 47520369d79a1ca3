//! Encoding of debug messages into frames, on the sending side.
use vstd::prelude::*;
use vstd::string::StringSliceAdditionalSpecFns;
use crate::wire::{
    be32, be64, enc_body, enc_frame, enc_pairs, enc_payload, enc_str, encodable, pairs_view,
    MessageModel, MsgPayload, PayloadModel, TAG_TEXT, TAG_VALUES,
};

verus! {

/// The largest frame the `u32` length field can describe.
pub const MAX_FRAME_LEN: u64 = 0xffff_ffff;

/// The message with these parts, as the wire sees it.
pub open spec fn model_of(
    time: u64,
    thread_id: Seq<char>,
    filename: Seq<char>,
    line: u32,
    payload: PayloadModel,
) -> MessageModel {
    MessageModel { time, thread_id, filename, line, payload }
}

proof fn lemma_enc_pairs_step(ps: Seq<(Seq<char>, Seq<char>)>, k: int)
    requires
        0 <= k < ps.len(),
    ensures
        enc_pairs(ps.take(k + 1)) == enc_pairs(ps.take(k)) + enc_str(ps[k].0) + enc_str(ps[k].1),
{
    assert(ps.take(k + 1).drop_last() =~= ps.take(k));
}

proof fn lemma_enc_pairs_grows(ps: Seq<(Seq<char>, Seq<char>)>, k: int)
    requires
        0 <= k <= ps.len(),
    ensures
        enc_pairs(ps.take(k)).len() <= enc_pairs(ps).len(),
    decreases ps.len() - k,
{
    if k < ps.len() {
        lemma_enc_pairs_step(ps, k);
        lemma_enc_pairs_grows(ps, k + 1);
    } else {
        assert(ps.take(k) =~= ps);
    }
}

proof fn lemma_fixed_widths(x: u32, y: u64)
    ensures
        be32(x).len() == 4,
        be64(y).len() == 8,
{
}

/// Number of UTF-8 bytes of a string.
fn byte_len(s: &str) -> (r: u64)
    ensures
        r == s.spec_bytes().len(),
{
    s.as_bytes().len() as u64
}

/// Bytes a string takes on the wire.
fn required_str_capacity(s: &str) -> (r: u64)
    requires
        s.spec_bytes().len() <= MAX_FRAME_LEN,
    ensures
        r == enc_str(s@).len(),
{
    byte_len(s) + 4
}

impl MsgPayload {
    /// Bytes the payload takes on the wire, tag included; `None` where that
    /// exceeds the largest frame.
    pub fn required_capacity(&self) -> (r: Option<u32>)
        ensures
            enc_payload(self@).len() <= MAX_FRAME_LEN ==> r == Some(enc_payload(self@).len() as u32),
            enc_payload(self@).len() > MAX_FRAME_LEN ==> r is None,
    {
        match self {
            MsgPayload::Message(msg) => {
                if byte_len(msg.as_str()) > MAX_FRAME_LEN - 5 {
                    return None;
                }
                Some((required_str_capacity(msg.as_str()) + 1) as u32)
            },
            MsgPayload::Values(values) => {
                let ghost ps = pairs_view(values@);
                let mut total: u64 = 5;
                let mut i: usize = 0;
                proof {
                    assert(ps.take(0) =~= Seq::empty());
                }
                while i < values.len()
                    invariant
                        i <= values.len(),
                        ps == pairs_view(values@),
                        total == 5 + enc_pairs(ps.take(i as int)).len(),
                        total <= MAX_FRAME_LEN,
                        enc_payload(self@) == seq![TAG_VALUES] + be32(ps.len() as u32) + enc_pairs(
                            ps,
                        ),
                    decreases values.len() - i,
                {
                    let name = values[i].0.as_str();
                    let value = values[i].1.as_str();
                    proof {
                        lemma_enc_pairs_step(ps, i as int);
                        lemma_enc_pairs_grows(ps, i + 1);
                        lemma_fixed_widths(ps.len() as u32, 0);
                    }
                    let name_len = byte_len(name);
                    let value_len = byte_len(value);
                    if name_len > MAX_FRAME_LEN - total {
                        return None;
                    }
                    let t1 = total + name_len;
                    if value_len > MAX_FRAME_LEN - t1 || 8 > MAX_FRAME_LEN - t1 - value_len {
                        return None;
                    }
                    total = t1 + required_str_capacity(value) + 4;
                    i = i + 1;
                }
                proof {
                    assert(ps.take(i as int) =~= ps);
                    lemma_fixed_widths(ps.len() as u32, 0);
                }
                Some(total as u32)
            },
        }
    }
}

/// Bytes the body of a frame with these parts takes (what its length field
/// holds); `None` where that exceeds what the length field can describe.
pub fn body_len(thread_id: &str, filename: &str, payload: &MsgPayload) -> (r: Option<u32>)
    ensures
        forall|time: u64, line: u32|
            {
                let m = #[trigger] model_of(time, thread_id@, filename@, line, payload@);
                &&& encodable(m) ==> r == Some(enc_body(m).len() as u32)
                &&& !encodable(m) ==> r is None
            },
{
    let fixed: u64 = 20;
    let p: u64 = match payload.required_capacity() {
        Some(p) => p as u64,
        None => {
            proof {
                assert forall|time: u64, line: u32|
                    !encodable(#[trigger] model_of(time, thread_id@, filename@, line, payload@)) by {
                    lemma_fixed_widths(line, time);
                }
            }
            return None;
        },
    };
    let t = byte_len(thread_id);
    let f = byte_len(filename);
    if t > MAX_FRAME_LEN || f > MAX_FRAME_LEN - t || p > MAX_FRAME_LEN - t - f || fixed
        > MAX_FRAME_LEN - t - f - p {
        proof {
            assert forall|time: u64, line: u32|
                !encodable(#[trigger] model_of(time, thread_id@, filename@, line, payload@)) by {
                lemma_fixed_widths(line, time);
            }
        }
        return None;
    }
    proof {
        assert forall|time: u64, line: u32|
            encodable(#[trigger] model_of(time, thread_id@, filename@, line, payload@)) by {
            lemma_fixed_widths(line, time);
        }
    }
    Some((fixed + t + f + p) as u32)
}

/// One encoded frame, ready to be written to a viewer.
#[derive(Clone, Debug)]
pub struct Message(Vec<u8>);

impl View for Message {
    type V = Seq<u8>;

    closed spec fn view(&self) -> Seq<u8> {
        self.0@
    }
}

impl Message {
    /// The frame of the message with these parts. The time (milliseconds
    /// since the epoch) and the thread id are read by the caller when the
    /// message is made.
    pub fn new(time: u64, thread_id: &str, filename: &str, line: u32, payload: MsgPayload) -> (r:
        Self)
        requires
            encodable(model_of(time, thread_id@, filename@, line, payload@)),
        ensures
            r@ == enc_frame(model_of(time, thread_id@, filename@, line, payload@)),
    {
        let len = match body_len(thread_id, filename, &payload) {
            Some(len) => len,
            None => {
                assert(false);
                0
            },
        };
        let mut msg = Message(Vec::new());
        msg.write_u32(len);
        msg.write_u64(time);
        msg.write_str(thread_id);
        msg.write_str(filename);
        msg.write_u32(line);
        msg.write_payload(&payload);
        proof {
            let m = model_of(time, thread_id@, filename@, line, payload@);
            assert(msg@ =~= enc_frame(m));
        }
        msg
    }

    /// The frame's bytes.
    pub fn as_slice(&self) -> (r: &[u8])
        ensures
            r@ == self@,
    {
        self.0.as_slice()
    }

    fn write_bytes(&mut self, b: &[u8])
        ensures
            final(self)@ == old(self)@ + b@,
    {
        let ghost start = self@;
        let mut i: usize = 0;
        while i < b.len()
            invariant
                i <= b@.len(),
                self@ == start + b@.take(i as int),
            decreases b@.len() - i,
        {
            self.0.push(b[i]);
            i = i + 1;
            proof {
                assert(self@ =~= start + b@.take(i as int));
            }
        }
        proof {
            assert(b@.take(i as int) =~= b@);
        }
    }

    fn write_str(&mut self, s: &str)
        ensures
            final(self)@ == old(self)@ + enc_str(s@),
    {
        let bytes = s.as_bytes();
        self.write_u32(bytes.len() as u32);
        self.write_bytes(bytes);
        proof {
            assert(final(self)@ =~= old(self)@ + enc_str(s@));
        }
    }

    fn write_u8(&mut self, i: u8)
        ensures
            final(self)@ == old(self)@.push(i),
    {
        self.0.push(i);
    }

    fn write_u32(&mut self, i: u32)
        ensures
            final(self)@ == old(self)@ + be32(i),
    {
        self.0.push((i >> 24u32) as u8);
        self.0.push((i >> 16u32) as u8);
        self.0.push((i >> 8u32) as u8);
        self.0.push(i as u8);
        proof {
            assert(final(self)@ =~= old(self)@ + be32(i));
        }
    }

    fn write_u64(&mut self, i: u64)
        ensures
            final(self)@ == old(self)@ + be64(i),
    {
        self.0.push((i >> 56u64) as u8);
        self.0.push((i >> 48u64) as u8);
        self.0.push((i >> 40u64) as u8);
        self.0.push((i >> 32u64) as u8);
        self.0.push((i >> 24u64) as u8);
        self.0.push((i >> 16u64) as u8);
        self.0.push((i >> 8u64) as u8);
        self.0.push(i as u8);
        proof {
            assert(final(self)@ =~= old(self)@ + be64(i));
        }
    }

    fn write_payload(&mut self, payload: &MsgPayload)
        ensures
            final(self)@ == old(self)@ + enc_payload(payload@),
    {
        match payload {
            MsgPayload::Message(msg) => {
                self.write_u8(TAG_TEXT);
                self.write_str(msg.as_str());
                proof {
                    assert(final(self)@ =~= old(self)@ + enc_payload(payload@));
                }
            },
            MsgPayload::Values(values) => {
                let ghost ps = pairs_view(values@);
                self.write_u8(TAG_VALUES);
                self.write_u32(values.len() as u32);
                let ghost head = self@;
                let mut i: usize = 0;
                proof {
                    assert(ps.take(0) =~= Seq::empty());
                    assert(head =~= head + enc_pairs(ps.take(0)));
                }
                while i < values.len()
                    invariant
                        i <= values.len(),
                        ps == pairs_view(values@),
                        self@ == head + enc_pairs(ps.take(i as int)),
                    decreases values.len() - i,
                {
                    proof {
                        lemma_enc_pairs_step(ps, i as int);
                    }
                    self.write_str(values[i].0.as_str());
                    self.write_str(values[i].1.as_str());
                    i = i + 1;
                    proof {
                        assert(self@ =~= head + enc_pairs(ps.take(i as int)));
                    }
                }
                proof {
                    assert(ps.take(i as int) =~= ps);
                    assert(final(self)@ =~= old(self)@ + enc_payload(payload@));
                }
            },
        }
    }
}

} // verus!
