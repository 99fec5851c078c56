//! Framing: cutting complete frames, each closed by a NUL, out of a stream of bytes.
use vstd::prelude::*;
use crate::codec::{DecodeError, Message, MessageV, append, decode, encode, parse};
use crate::text::{Class, NUL, copy_range, lemma_scan_bounds, scan, scan_from};

verus! {

/// Reads frames from, and writes messages to, a buffer of stream bytes.
#[derive(Debug)]
pub struct DamnCodec;

/// What reading the first frame of a buffer gives, where the buffer holds a whole one.
pub open spec fn first_frame(buf: Seq<u8>) -> Option<(Result<MessageV, DecodeError>, Seq<u8>)> {
    let i = scan(buf, 0, Class::Not(NUL));
    if i < buf.len() {
        Some((decode(buf.subrange(0, i + 1)), buf.subrange(i + 1, buf.len() as int)))
    } else {
        None
    }
}

impl DamnCodec {
    /// Takes the first frame (up to and including the first NUL) out of `buf` and reads
    /// it; with no NUL in `buf` yet, leaves it as it is and returns `Ok(None)`.
    pub fn decode(&mut self, buf: &mut Vec<u8>) -> (r: Result<Option<Message>, DecodeError>)
        ensures
            match first_frame(old(buf)@) {
                None => final(buf)@ == old(buf)@ && r == Ok::<Option<Message>, DecodeError>(None),
                Some((d, rest)) => final(buf)@ == rest && match d {
                    Ok(m) => r matches Ok(Some(x)) && x@ == m,
                    Err(e) => r == Err::<Option<Message>, DecodeError>(e),
                },
            },
    {
        let i = scan_from(buf.as_slice(), 0, Class::Not(NUL));
        proof {
            lemma_scan_bounds(buf@, 0, Class::Not(NUL));
        }
        if i >= buf.len() {
            return Ok(None);
        }
        let frame = copy_range(buf.as_slice(), 0, i + 1);
        let rest = copy_range(buf.as_slice(), i + 1, buf.len());
        *buf = rest;
        match parse(frame.as_slice()) {
            Ok(m) => Ok(Some(m)),
            Err(e) => Err(e),
        }
    }

    /// Writes a message's bytes after what `buf` holds.
    pub fn encode(&mut self, msg: Message, buf: &mut Vec<u8>)
        ensures
            final(buf)@ == old(buf)@ + encode(msg@),
    {
        let bytes = msg.as_bytes();
        append(buf, bytes.as_slice());
    }
}

} // verus!
