//! Frames: one line of text each, cut out of a stream of bytes.

use crate::text::{lemma_views_push, views};
use crate::wire::failure::ProtocolViolationKind;
use vstd::prelude::*;
use vstd::utf8::{encode_utf8, encode_utf8_decode_utf8, encode_utf8_valid_utf8, decode_utf8, valid_utf8};

verus! {

/// The longest frame, without the line feed that ends it.
pub const MAX_FRAME_BYTES: usize = 524_288;

/// What a decoder has made of a stream so far.
pub struct Decoded {
    /// The frames that were completed, in order.
    pub frames: Seq<Seq<char>>,
    /// The bytes of the frame that was not.
    pub pending: Seq<u8>,
    /// What is wrong with the stream; nothing behind it is decoded.
    pub fault: Option<ProtocolViolationKind>,
}

/// A stream one byte further. A line feed completes a frame, which has to be
/// text; any other byte belongs to the frame that is being collected, which has
/// to stay within its limit.
pub open spec fn fed(d: Decoded, byte: u8) -> Decoded {
    if d.fault is Some {
        d
    } else if byte == 10 {
        if valid_utf8(d.pending) {
            Decoded {
                frames: d.frames.push(decode_utf8(d.pending)),
                pending: Seq::empty(),
                fault: None,
            }
        } else {
            Decoded { fault: Some(ProtocolViolationKind::NotUtf8), ..d }
        }
    } else if d.pending.len() >= MAX_FRAME_BYTES {
        Decoded { fault: Some(ProtocolViolationKind::OversizeFrame), ..d }
    } else {
        Decoded { pending: d.pending.push(byte), ..d }
    }
}

/// A stream so many bytes further.
pub open spec fn fed_all(d: Decoded, bytes: Seq<u8>) -> Decoded
    decreases bytes.len(),
{
    if bytes.len() == 0 {
        d
    } else {
        fed(fed_all(d, bytes.drop_last()), bytes.last())
    }
}

/// `String::from_utf8`: the text that bytes are the UTF-8 of, if they are that of
/// any.
#[verifier::external_body]
fn text_of(bytes: Vec<u8>) -> (r: Option<String>)
    ensures
        match r {
            Some(text) => encode_utf8(text@) == bytes@,
            None => !valid_utf8(bytes@),
        },
{
    match String::from_utf8(bytes) {
        Ok(text) => Some(text),
        Err(_) => None,
    }
}

/// Cuts frames out of a stream of bytes, however the stream is chunked.
pub struct FrameDecoder {
    pending: Vec<u8>,
}

impl View for FrameDecoder {
    type V = Seq<u8>;

    /// The bytes of the frame that is being collected.
    closed spec fn view(&self) -> Seq<u8> {
        self.pending@
    }
}

impl FrameDecoder {
    /// A decoder at the start of a stream.
    pub fn new() -> (r: FrameDecoder)
        ensures
            r@ == Seq::<u8>::empty(),
    {
        FrameDecoder { pending: Vec::new() }
    }

    /// How many bytes of an uncompleted frame are held.
    pub fn pending_bytes(&self) -> (r: usize)
        ensures
            r == self@.len(),
    {
        self.pending.len()
    }

    /// Takes the next bytes of the stream: the frames that they complete, and
    /// what is wrong with them, if anything.
    pub fn push(&mut self, bytes: &[u8]) -> (r: (Vec<String>, Option<ProtocolViolationKind>))
        ensures
            ({
                let d = fed_all(
                    Decoded { frames: Seq::empty(), pending: old(self)@, fault: None },
                    bytes@,
                );
                &&& views(r.0@) == d.frames
                &&& r.1 == d.fault
                &&& final(self)@ == d.pending
            }),
    {
        let ghost start = Decoded {
            frames: Seq::<Seq<char>>::empty(),
            pending: self@,
            fault: None::<ProtocolViolationKind>,
        };
        let mut frames: Vec<String> = Vec::new();
        let mut i: usize = 0;
        proof {
            assert(bytes@.take(0) =~= Seq::<u8>::empty());
            assert(views(frames@) =~= Seq::<Seq<char>>::empty());
        }
        while i < bytes.len()
            invariant
                i <= bytes@.len(),
                start == (Decoded {
                    frames: Seq::<Seq<char>>::empty(),
                    pending: old(self)@,
                    fault: None::<ProtocolViolationKind>,
                }),
                fed_all(start, bytes@.take(i as int)) == (Decoded {
                    frames: views(frames@),
                    pending: self@,
                    fault: None::<ProtocolViolationKind>,
                }),
            decreases bytes@.len() - i,
        {
            let byte = bytes[i];
            let ghost before = Decoded {
                frames: views(frames@),
                pending: self@,
                fault: None::<ProtocolViolationKind>,
            };
            proof {
                assert(bytes@.take(i + 1).drop_last() =~= bytes@.take(i as int));
                assert(fed_all(start, bytes@.take(i + 1)) == fed(before, byte));
            }
            if byte == 10 {
                let line = self.pending.clone();
                proof {
                    assert(line@ =~= self.pending@);
                }
                match text_of(line) {
                    Some(text) => {
                        proof {
                            encode_utf8_valid_utf8(text@);
                            encode_utf8_decode_utf8(text@);
                            lemma_views_push(frames@, text);
                        }
                        frames.push(text);
                        self.pending = Vec::new();
                        proof {
                            assert(self@ =~= Seq::<u8>::empty());
                        }
                    },
                    None => {
                        proof {
                            lemma_fault_stays(start, bytes@, i + 1);
                        }
                        return (frames, Some(ProtocolViolationKind::NotUtf8));
                    },
                }
            } else if self.pending.len() >= MAX_FRAME_BYTES {
                proof {
                    lemma_fault_stays(start, bytes@, i + 1);
                }
                return (frames, Some(ProtocolViolationKind::OversizeFrame));
            } else {
                self.pending.push(byte);
            }
            i = i + 1;
        }
        proof {
            assert(bytes@.take(i as int) =~= bytes@);
        }
        (frames, None)
    }
}

/// Nothing behind a fault is decoded.
proof fn lemma_fault_stays(d: Decoded, bytes: Seq<u8>, n: int)
    requires
        0 <= n <= bytes.len(),
        fed_all(d, bytes.take(n)).fault is Some,
    ensures
        fed_all(d, bytes) == fed_all(d, bytes.take(n)),
    decreases bytes.len() - n,
{
    if n == bytes.len() {
        assert(bytes.take(n) =~= bytes);
    } else {
        assert(bytes.take(n + 1).drop_last() =~= bytes.take(n));
        lemma_fault_stays(d, bytes, n + 1);
    }
}

/// How a stream is chunked makes no difference.
pub proof fn law_chunks_do_not_matter(d: Decoded, a: Seq<u8>, b: Seq<u8>)
    ensures
        fed_all(d, a + b) == fed_all(fed_all(d, a), b),
    decreases b.len(),
{
    if b.len() == 0 {
        assert(a + b =~= a);
    } else {
        law_chunks_do_not_matter(d, a, b.drop_last());
        assert((a + b).drop_last() =~= a + b.drop_last());
    }
}

} // verus!
