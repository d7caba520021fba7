//! Stream framing for control-plane commands: every command on a TCP or
//! UDP byte stream is preceded by the four-byte marker `CPLX`, and the
//! decoder turns the continuous stream back into discrete commands.
//!
//! The decoder accumulates input, parses the payload after the first marker
//! bounded by the next one, discards bytes only on a successful parse, and
//! holds everything on a failed one — a payload that has not fully arrived
//! must never be mistaken for an error.

use vstd::prelude::*;
use vstd::slice::slice_subrange;

use crate::error::Error;
use crate::socket_command::{
    socket_command_bytes, spec_parse_command, SocketCommand, SocketCommandView,
};

verus! {

/// The framing marker: the bytes of `C`, `P`, `L`, `X`.
pub open spec fn spec_marker() -> Seq<u8> {
    seq![67u8, 80u8, 76u8, 88u8]
}

/// Whether the marker occupies positions `i` .. `i + 4` of the stream.
pub open spec fn spec_is_marker_at(b: Seq<u8>, i: int) -> bool {
    &&& 0 <= i
    &&& i + 4 <= b.len()
    &&& b[i] == 67u8
    &&& b[i + 1] == 80u8
    &&& b[i + 2] == 76u8
    &&& b[i + 3] == 88u8
}

/// The first marker occurrence at or after `from`, if any.
pub open spec fn spec_find_marker(b: Seq<u8>, from: int) -> Option<int>
    decreases b.len() - from,
{
    if from < 0 || from + 4 > b.len() {
        None
    } else if spec_is_marker_at(b, from) {
        Some(from)
    } else {
        spec_find_marker(b, from + 1)
    }
}

pub proof fn lemma_find_marker(b: Seq<u8>, from: int)
    requires
        0 <= from,
    ensures
        match spec_find_marker(b, from) {
            Some(m) => from <= m && spec_is_marker_at(b, m) && forall|j: int|
                from <= j < m ==> !spec_is_marker_at(b, j),
            None => forall|j: int| j >= from ==> !spec_is_marker_at(b, j),
        },
    decreases b.len() - from,
{
    if from + 4 > b.len() {
    } else if spec_is_marker_at(b, from) {
    } else {
        lemma_find_marker(b, from + 1);
    }
}

/// Two distinct marker occurrences never overlap: the marker's bytes are
/// pairwise distinct, so occurrences are at least four bytes apart.
pub proof fn lemma_markers_disjoint(b: Seq<u8>, m: int, j: int)
    requires
        spec_is_marker_at(b, m),
        spec_is_marker_at(b, j),
        m < j,
    ensures
        m + 4 <= j,
{
    if j < m + 4 {
        assert(b[j] == 67u8);
    }
}

/// One decoding round on an accumulated stream: find the first marker,
/// bound the payload by the next marker or the end of the stream, and
/// parse. On success, the stream advances past the consumed bytes; on a
/// missing marker or an incomplete or malformed payload, nothing happens.
pub open spec fn spec_step(b: Seq<u8>) -> Option<(SocketCommandView, Seq<u8>)> {
    match spec_find_marker(b, 0) {
        None => None,
        Some(m) => {
            let e = match spec_find_marker(b, m + 1) {
                Some(e) => e,
                None => b.len() as int,
            };
            match spec_parse_command(b.subrange(m + 4, e)) {
                Some(p) => Some((p.0, b.skip(m + 4 + p.1))),
                None => None,
            }
        },
    }
}

/// Frame one command for the wire: the marker followed by its canonical
/// binary encoding. Responses are never framed.
pub fn frame_command(command: &SocketCommand) -> (r: Vec<u8>)
    requires
        command.wf(),
    ensures
        r@ == spec_marker() + crate::socket_command::spec_command_bytes(command@),
{
    let mut r: Vec<u8> = Vec::new();
    r.push(67);
    r.push(80);
    r.push(76);
    r.push(88);
    let mut body = command.to_bytes();
    r.append(&mut body);
    proof {
        assert(r@ =~= spec_marker() + crate::socket_command::spec_command_bytes(command@));
    }
    r
}

/// The accumulating decoder for framed commands on one stream.
#[derive(Debug)]
pub struct SocketCommandCodec {
    buf: Vec<u8>,
}

impl View for SocketCommandCodec {
    type V = Seq<u8>;

    closed spec fn view(&self) -> Seq<u8> {
        self.buf@
    }
}

impl Default for SocketCommandCodec {
    /// A fresh decoder with an empty accumulation buffer.
    fn default() -> (r: Self)
        ensures
            r@.len() == 0,
    {
        SocketCommandCodec { buf: Vec::new() }
    }
}

/// Find the first marker occurrence at or after `from`.
fn find_marker(buf: &Vec<u8>, from: usize) -> (r: Option<usize>)
    requires
        from <= buf@.len(),
    ensures
        match r {
            Some(m) => spec_find_marker(buf@, from as int) == Some(m as int),
            None => spec_find_marker(buf@, from as int) is None,
        },
{
    let mut i = from;
    loop
        invariant
            from <= i <= buf@.len(),
            spec_find_marker(buf@, from as int) == spec_find_marker(buf@, i as int),
        decreases buf@.len() - i,
    {
        if buf.len() - i < 4 {
            return None;
        }
        if buf[i] == 67 && buf[i + 1] == 80 && buf[i + 2] == 76 && buf[i + 3] == 88 {
            proof {
                assert(spec_is_marker_at(buf@, i as int));
            }
            return Some(i);
        }
        proof {
            assert(!spec_is_marker_at(buf@, i as int));
        }
        i += 1;
    }
}

impl SocketCommandCodec {
    /// One decoding round: append the newly received bytes to the
    /// accumulation buffer and attempt to decode one framed command.
    ///
    /// The buffer advances past the consumed bytes exactly when a command
    /// is decoded; otherwise every byte is held for the next round, so
    /// that data is never discarded on a failed parse.
    pub fn decode(&mut self, src: &mut Vec<u8>) -> (r: Option<SocketCommand>)
        ensures
            final(src)@.len() == 0,
            ({
                let all = old(self)@ + old(src)@;
                match spec_step(all) {
                    Some(p) => r matches Some(c) && c@ == p.0 && c.wf() && final(self)@ == p.1,
                    None => r is None && final(self)@ == all,
                }
            }),
    {
        self.buf.append(src);
        let ghost all = self.buf@;
        proof {
            lemma_find_marker(all, 0);
        }
        let m = match find_marker(&self.buf, 0) {
            None => {
                return None;
            },
            Some(m) => m,
        };
        let n = self.buf.len();
        proof {
            assert(spec_is_marker_at(all, m as int));
            lemma_find_marker(all, m + 1);
        }
        let e = match find_marker(&self.buf, m + 1) {
            None => n,
            Some(e) => {
                proof {
                    lemma_markers_disjoint(all, m as int, e as int);
                }
                e
            },
        };
        let payload = slice_subrange(self.buf.as_slice(), m + 4, e);
        match socket_command_bytes(payload) {
            Ok((command, used)) => {
                proof {
                    crate::socket_command::lemma_parse_command_bounds(payload@);
                }
                let tail = self.buf.split_off(m + 4 + used);
                proof {
                    assert(tail@ =~= all.skip(m + 4 + used as int));
                }
                self.buf = tail;
                Some(command)
            },
            Err(_) => None,
        }
    }

    /// The end-of-stream round: decode as usual; once nothing more
    /// decodes, an empty buffer is a clean shutdown and leftover bytes are
    /// an incomplete trailing command, which is a protocol error.
    pub fn decode_eof(&mut self, src: &mut Vec<u8>) -> (r: Result<Option<SocketCommand>, Error>)
        ensures
            final(src)@.len() == 0,
            ({
                let all = old(self)@ + old(src)@;
                match spec_step(all) {
                    Some(p) => r matches Ok(o) && o matches Some(c) && c@ == p.0 && c.wf()
                        && final(self)@ == p.1,
                    None => final(self)@ == all && r == if all.len() == 0 {
                        Ok::<Option<SocketCommand>, Error>(None)
                    } else {
                        Err::<Option<SocketCommand>, Error>(Error::TrailingBytes)
                    },
                }
            }),
    {
        match self.decode(src) {
            Some(command) => Ok(Some(command)),
            None => {
                if self.buf.len() == 0 {
                    Ok(None)
                } else {
                    Err(Error::TrailingBytes)
                }
            },
        }
    }
}

} // verus!
