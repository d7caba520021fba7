//! Laws of the stream framing: a clean framed stream decodes to its
//! commands regardless of how the bytes are chunked.
//!
//! A stream is clean when the only marker occurrences in it are the real
//! frame starts; a color payload that happens to contain the marker bytes
//! corrupts the framing, and no decoder could tell such a payload from a
//! frame start.

use vstd::prelude::*;

use crate::codec::{
    lemma_find_marker, lemma_markers_disjoint, spec_find_marker, spec_is_marker_at, spec_step,
};
use crate::socket_command::{
    lemma_command_roundtrip, lemma_parse_command_bounds, lemma_parse_command_prefix,
    spec_command_bytes, spec_parse_command, SocketCommandView,
};

verus! {

/// One framed command: the marker followed by the command's encoding.
pub open spec fn spec_frame(c: SocketCommandView) -> Seq<u8> {
    crate::codec::spec_marker() + spec_command_bytes(c)
}

/// A whole framed stream: the frames of the commands, in order.
pub open spec fn spec_frames(cs: Seq<SocketCommandView>) -> Seq<u8>
    decreases cs.len(),
{
    if cs.len() == 0 {
        Seq::empty()
    } else {
        spec_frame(cs[0]) + spec_frames(cs.skip(1))
    }
}

/// Every command of a stream is well formed.
pub open spec fn spec_wf_all(cs: Seq<SocketCommandView>) -> bool {
    forall|i: int| 0 <= i < cs.len() ==> (#[trigger] cs[i]).wf()
}

/// The stream offset at which the frame of command `j` starts.
pub open spec fn spec_boundary(cs: Seq<SocketCommandView>, j: int) -> int
    decreases j,
{
    if j <= 0 || cs.len() == 0 {
        0
    } else {
        spec_frame(cs[0]).len() + spec_boundary(cs.skip(1), j - 1)
    }
}

/// A clean stream: marker bytes occur only where frames start. Without
/// this, a color payload that contains the marker bytes is indistinguishable
/// from a frame start, and decoding honestly depends on chunk timing.
pub open spec fn spec_clean(cs: Seq<SocketCommandView>) -> bool {
    forall|p: int|
        spec_is_marker_at(spec_frames(cs), p) ==> exists|j: int|
            0 <= j < cs.len() && p == spec_boundary(cs, j)
}

/// Every encoding holds at least its tag byte.
pub proof fn lemma_command_bytes_len(c: SocketCommandView)
    ensures
        spec_command_bytes(c).len() >= 1,
{
    match c {
        SocketCommandView::SetColors(cs) => {
            crate::socket_command::lemma_rgb_flat_len(cs);
        },
        _ => {
        },
    }
}

pub proof fn lemma_frame_len(c: SocketCommandView)
    ensures
        spec_frame(c).len() == 4 + spec_command_bytes(c).len(),
        spec_frame(c).len() >= 5,
{
    lemma_command_bytes_len(c);
}

/// The frames of a stream take at least five bytes per command.
pub proof fn lemma_frames_len(cs: Seq<SocketCommandView>)
    ensures
        spec_frames(cs).len() >= 5 * cs.len(),
        cs.len() > 0 ==> spec_frames(cs).len() == spec_frame(cs[0]).len() + spec_frames(
            cs.skip(1),
        ).len(),
    decreases cs.len(),
{
    if cs.len() > 0 {
        lemma_frame_len(cs[0]);
        lemma_frames_len(cs.skip(1));
    }
}

/// A nonempty framed stream begins with the marker.
pub proof fn lemma_frames_start_marker(cs: Seq<SocketCommandView>)
    requires
        cs.len() > 0,
    ensures
        spec_is_marker_at(spec_frames(cs), 0),
{
    lemma_frames_len(cs);
    let b = spec_frames(cs);
    assert(b[0] == spec_frame(cs[0])[0]);
    assert(b[1] == spec_frame(cs[0])[1]);
    assert(b[2] == spec_frame(cs[0])[2]);
    assert(b[3] == spec_frame(cs[0])[3]);
    assert(spec_frame(cs[0])[0] == 67u8);
    assert(spec_frame(cs[0])[1] == 80u8);
    assert(spec_frame(cs[0])[2] == 76u8);
    assert(spec_frame(cs[0])[3] == 88u8);
}

/// Frame boundaries are nonnegative and the second boundary is the first
/// frame's length.
pub proof fn lemma_boundary_lb(cs: Seq<SocketCommandView>, j: int)
    requires
        cs.len() > 0,
        1 <= j,
    ensures
        spec_boundary(cs, j) >= spec_frame(cs[0]).len(),
    decreases j,
{
    lemma_boundary_nonneg(cs.skip(1), j - 1);
}

pub proof fn lemma_boundary_nonneg(cs: Seq<SocketCommandView>, j: int)
    ensures
        spec_boundary(cs, j) >= 0,
    decreases j,
{
    if j > 0 && cs.len() > 0 {
        lemma_frame_len(cs[0]);
        lemma_boundary_nonneg(cs.skip(1), j - 1);
    }
}

/// A clean stream stays clean when its first command is removed.
pub proof fn lemma_clean_suffix(cs: Seq<SocketCommandView>)
    requires
        cs.len() > 0,
        spec_clean(cs),
    ensures
        spec_clean(cs.skip(1)),
{
    let f0 = spec_frame(cs[0]).len();
    let b = spec_frames(cs);
    let t = spec_frames(cs.skip(1));
    lemma_frames_len(cs);
    assert forall|p: int| spec_is_marker_at(t, p) implies exists|j: int|
        0 <= j < cs.skip(1).len() && p == spec_boundary(cs.skip(1), j) by {
        assert(spec_is_marker_at(b, p + f0)) by {
            assert(b[p + f0] == t[p]);
            assert(b[p + f0 + 1] == t[p + 1]);
            assert(b[p + f0 + 2] == t[p + 2]);
            assert(b[p + f0 + 3] == t[p + 3]);
        }
        let j = choose|j: int| 0 <= j < cs.len() && p + f0 == spec_boundary(cs, j);
        assert(j >= 1) by {
            if j == 0 {
                assert(spec_boundary(cs, 0) == 0);
                lemma_frame_len(cs[0]);
            }
        }
        assert(spec_boundary(cs, j) == f0 + spec_boundary(cs.skip(1), j - 1));
        assert(0 <= j - 1 < cs.skip(1).len() && p == spec_boundary(cs.skip(1), j - 1));
    }
}

/// In a clean stream, no marker starts strictly inside the first frame.
pub proof fn lemma_no_marker_inside_first(cs: Seq<SocketCommandView>, p: int)
    requires
        cs.len() > 0,
        spec_clean(cs),
        1 <= p < spec_frame(cs[0]).len(),
    ensures
        !spec_is_marker_at(spec_frames(cs), p),
{
    if spec_is_marker_at(spec_frames(cs), p) {
        let j = choose|j: int| 0 <= j < cs.len() && p == spec_boundary(cs, j);
        if j == 0 {
            assert(spec_boundary(cs, 0) == 0);
        } else {
            lemma_boundary_lb(cs, j);
        }
    }
}

/// The remainder of a framed stream past its first frame is the framed
/// stream of the remaining commands.
pub proof fn lemma_frames_skip_first(cs: Seq<SocketCommandView>)
    requires
        cs.len() > 0,
    ensures
        spec_frames(cs).skip(spec_frame(cs[0]).len() as int) == spec_frames(cs.skip(1)),
{
    lemma_frames_len(cs);
    assert(spec_frames(cs).skip(spec_frame(cs[0]).len() as int) =~= spec_frames(cs.skip(1)));
}

/// One decoding round on any prefix of a clean framed stream: before the
/// first frame is complete it yields nothing and holds every byte; once
/// complete, it yields the first command and leaves exactly the prefix of
/// the remaining frames.
pub proof fn lemma_step_on_prefix(cs: Seq<SocketCommandView>, f: int)
    requires
        spec_wf_all(cs),
        spec_clean(cs),
        cs.len() > 0,
        0 <= f <= spec_frames(cs).len(),
    ensures
        f < spec_frame(cs[0]).len() ==> spec_step(spec_frames(cs).take(f)) is None,
        f >= spec_frame(cs[0]).len() ==> spec_step(spec_frames(cs).take(f)) == Some(
            (cs[0], spec_frames(cs.skip(1)).take(f - spec_frame(cs[0]).len())),
        ),
{
    let b0 = spec_frames(cs);
    let b = b0.take(f);
    let c = cs[0];
    let enc = spec_command_bytes(c);
    let f0 = spec_frame(c).len();
    lemma_frame_len(c);
    lemma_frames_len(cs);
    assert(cs[0].wf());

    // Marker occurrences in the prefix embed into the whole stream.
    assert forall|p: int| spec_is_marker_at(b, p) implies spec_is_marker_at(b0, p) && p + 4
        <= f by {
        assert(b[p] == b0[p]);
        assert(b[p + 1] == b0[p + 1]);
        assert(b[p + 2] == b0[p + 2]);
        assert(b[p + 3] == b0[p + 3]);
    }
    if f < 4 {
        lemma_find_marker(b, 0);
        if spec_find_marker(b, 0) is Some {
            let m = spec_find_marker(b, 0).unwrap();
            assert(spec_is_marker_at(b, m));
        }
        assert(spec_step(b) is None);
        return ;
    }
    // The marker sits at position 0 of the prefix.
    lemma_frames_start_marker(cs);
    assert(spec_is_marker_at(b, 0)) by {
        assert(b[0] == b0[0]);
        assert(b[1] == b0[1]);
        assert(b[2] == b0[2]);
        assert(b[3] == b0[3]);
    }
    assert(spec_find_marker(b, 0) == Some(0int));

    // No marker starts inside the first frame, so the payload bound is
    // either the next frame start or the end of the prefix.
    assert forall|p: int| 1 <= p < f0 implies !spec_is_marker_at(b, p) by {
        if spec_is_marker_at(b, p) {
            lemma_no_marker_inside_first(cs, p);
        }
    }
    // The first frame's bytes are the marker and then the encoding.
    assert forall|i: int| 0 <= i < f0 && i < f implies b[i] == spec_frame(c)[i] by {
        assert(b[i] == b0[i]);
        assert(b0[i] == spec_frame(c)[i]);
    }
    lemma_find_marker(b, 1);
    let e = match spec_find_marker(b, 1) {
        Some(e) => e,
        None => b.len() as int,
    };
    if spec_find_marker(b, 1) is Some {
        let m2 = spec_find_marker(b, 1).unwrap();
        assert(spec_is_marker_at(b, m2));
        assert(m2 >= f0);
    }
    assert(e >= f0 || e == f);
    let payload = b.subrange(4, e);

    if f < f0 {
        // The first frame is incomplete: the payload is a strict prefix
        // of the encoding, which never parses.
        assert(e == f) by {
            if spec_find_marker(b, 1) is Some {
                let m2 = spec_find_marker(b, 1).unwrap();
                assert(m2 + 4 <= f);
                assert(m2 >= f0);
            }
        }
        assert(payload =~= enc.take(f - 4));
        lemma_parse_prefix_none(c, f - 4);
        assert(spec_step(b) is None);
    } else {
        // The first frame is complete: the payload starts with the whole
        // encoding, parsing consumes exactly the encoding, and the
        // remaining bytes are the prefix of the remaining frames.
        assert(e >= f0) by {
            if spec_find_marker(b, 1) is None {
                assert(e == f);
            }
        }
        assert(payload.len() == e - 4 >= enc.len());
        assert forall|i: int| 0 <= i < enc.len() implies payload[i] == enc[i] by {
            assert(payload[i] == b[4 + i]);
            assert(b[4 + i] == spec_frame(c)[4 + i]);
            assert(spec_frame(c)[4 + i] == enc[i]);
        }
        lemma_command_roundtrip(c);
        assert(enc == spec_command_bytes(c));
        assert(spec_parse_command(enc) == Some((c, enc.len() as int)));
        assert(enc =~= payload.subrange(0, enc.len() as int));
        if payload.len() <= enc.len() {
            assert(payload =~= enc.subrange(0, payload.len() as int));
        }
        lemma_parse_command_prefix(enc, payload);
        assert(spec_parse_command(payload) == Some((c, enc.len() as int)));
        assert(b.skip(4 + enc.len() as int) =~= spec_frames(cs.skip(1)).take(f - f0)) by {
            lemma_frames_skip_first(cs);
        }
        assert(spec_step(b) == Some((c, spec_frames(cs.skip(1)).take(f - f0))));
    }
}

/// Whether a command's encoding is free of marker occurrences. Only a
/// color payload can ever contain one; every other encoding is short and
/// starts with a tag distinct from the marker bytes.
pub open spec fn spec_payload_marker_free(c: SocketCommandView) -> bool {
    forall|p: int| !spec_is_marker_at(spec_command_bytes(c), p)
}

/// Every command other than `SetColors` has a marker-free encoding.
pub proof fn lemma_simple_commands_marker_free(c: SocketCommandView)
    requires
        !(c is SetColors),
    ensures
        spec_payload_marker_free(c),
{
    let enc = spec_command_bytes(c);
    assert forall|p: int| !spec_is_marker_at(enc, p) by {
        if spec_is_marker_at(enc, p) {
            assert(p == 0);
            assert(enc[0] == 67u8);
        }
    }
}

/// Marker-free payloads make a clean stream: a marker window can start
/// neither inside the framing marker, nor inside such a payload, nor
/// across a frame boundary, because the byte after the crossing is the
/// next marker's first byte where one of its later bytes would have to be.
pub proof fn lemma_marker_free_clean(cs: Seq<SocketCommandView>)
    requires
        forall|i: int| 0 <= i < cs.len() ==> spec_payload_marker_free(#[trigger] cs[i]),
    ensures
        spec_clean(cs),
    decreases cs.len(),
{
    let b = spec_frames(cs);
    if cs.len() == 0 {
        assert(b.len() == 0);
    } else {
        let c0 = cs[0];
        let enc = spec_command_bytes(c0);
        let f0 = spec_frame(c0).len();
        let rest = cs.skip(1);
        lemma_frame_len(c0);
        lemma_frames_len(cs);
        assert forall|i: int| 0 <= i < rest.len() implies spec_payload_marker_free(
            #[trigger] rest[i],
        ) by {
            assert(rest[i] == cs[i + 1]);
        }
        lemma_marker_free_clean(rest);
        assert forall|p: int| spec_is_marker_at(b, p) implies exists|j: int|
            0 <= j < cs.len() && p == spec_boundary(cs, j) by {
            assert(forall|i: int| 0 <= i < f0 ==> b[i] == spec_frame(c0)[i]);
            if p == 0 {
                assert(0 <= 0 < cs.len() && 0int == spec_boundary(cs, 0));
            } else if p + 4 <= f0 {
                if p <= 3 {
                    // A window starting inside the marker itself reads a
                    // later marker byte where the first must be.
                    assert(b[p] == spec_frame(c0)[p]);
                    assert(spec_frame(c0)[p] != 67u8);
                    assert(false);
                } else {
                    // A window entirely inside the payload.
                    assert(spec_is_marker_at(enc, p - 4)) by {
                        assert(b[p] == spec_frame(c0)[p] && spec_frame(c0)[p] == enc[p - 4]);
                        assert(b[p + 1] == spec_frame(c0)[p + 1] && spec_frame(c0)[p + 1] == enc[p
                            - 3]);
                        assert(b[p + 2] == spec_frame(c0)[p + 2] && spec_frame(c0)[p + 2] == enc[p
                            - 2]);
                        assert(b[p + 3] == spec_frame(c0)[p + 3] && spec_frame(c0)[p + 3] == enc[p
                            - 1]);
                    }
                    assert(!spec_is_marker_at(enc, p - 4));
                    assert(false);
                }
            } else if p < f0 {
                // A window crossing the frame boundary.
                if rest.len() == 0 {
                    assert(b.len() == f0);
                    assert(false);
                } else {
                    lemma_frames_start_marker(rest);
                    assert(b[f0 as int] == spec_frames(rest)[0]);
                    assert(spec_frames(rest)[0] == 67u8);
                    let j = f0 - p;
                    assert(1 <= j <= 3);
                    assert(b[p + j] == 67u8);
                    assert(b[p + 1] == 80u8 && b[p + 2] == 76u8 && b[p + 3] == 88u8);
                    assert(false);
                }
            } else {
                // A window inside the remaining frames.
                assert(spec_is_marker_at(spec_frames(rest), p - f0)) by {
                    assert(spec_frames(rest)[p - f0] == b[p]);
                    assert(spec_frames(rest)[p - f0 + 1] == b[p + 1]);
                    assert(spec_frames(rest)[p - f0 + 2] == b[p + 2]);
                    assert(spec_frames(rest)[p - f0 + 3] == b[p + 3]);
                }
                let j2 = choose|j2: int|
                    0 <= j2 < rest.len() && p - f0 == spec_boundary(rest, j2);
                assert(spec_boundary(cs, j2 + 1) == f0 + spec_boundary(rest, j2));
                assert(0 <= j2 + 1 < cs.len() && p == spec_boundary(cs, j2 + 1));
            }
        }
    }
}

/// The cleanliness hypothesis of the stream laws is satisfiable: the
/// stream framing both read commands is clean, since their one-byte
/// payloads cannot fake a marker.
pub proof fn lemma_clean_read_pair()
    ensures
        spec_clean(seq![SocketCommandView::GetCoolantTemp, SocketCommandView::GetPumpSpeed]),
{
    let cs = seq![SocketCommandView::GetCoolantTemp, SocketCommandView::GetPumpSpeed];
    let b = spec_frames(cs);
    assert(cs.skip(1) =~= seq![SocketCommandView::GetPumpSpeed]);
    assert(seq![SocketCommandView::GetPumpSpeed].skip(1).len() == 0);
    assert(spec_frames(seq![SocketCommandView::GetPumpSpeed].skip(1)) == Seq::<u8>::empty());
    assert(spec_frames(seq![SocketCommandView::GetPumpSpeed]) =~= spec_frame(
        SocketCommandView::GetPumpSpeed,
    ));
    assert(b =~= seq![67u8, 80u8, 76u8, 88u8, 0u8, 67u8, 80u8, 76u8, 88u8, 1u8]);
    assert(spec_boundary(cs, 0) == 0);
    assert(spec_boundary(cs.skip(1), 0) == 0);
    assert(spec_boundary(cs, 1) == 5);
    assert forall|p: int| spec_is_marker_at(b, p) implies exists|j: int|
        0 <= j < cs.len() && p == spec_boundary(cs, j) by {
        assert(0 <= p <= 6);
        assert(b[p] == 67u8);
        if p == 0 {
            assert(0 <= 0 < cs.len() && 0int == spec_boundary(cs, 0));
        } else {
            assert(p == 5);
            assert(0 <= 1 < cs.len() && 5int == spec_boundary(cs, 1));
        }
    }
}

/// A successful decoding round always consumes at least the marker and
/// the tag byte.
pub proof fn lemma_step_shrinks(b: Seq<u8>)
    ensures
        spec_step(b) matches Some(p) ==> p.1.len() < b.len(),
{
    lemma_find_marker(b, 0);
    match spec_find_marker(b, 0) {
        None => {
        },
        Some(m) => {
            lemma_find_marker(b, m + 1);
            let e = match spec_find_marker(b, m + 1) {
                Some(e2) => e2,
                None => b.len() as int,
            };
            match spec_find_marker(b, m + 1) {
                Some(e2) => {
                    lemma_markers_disjoint(b, m, e2);
                },
                None => {
                },
            }
            lemma_parse_command_bounds(b.subrange(m + 4, e));
        },
    }
}

/// Draining a buffer: decoding rounds applied until one yields nothing,
/// collecting the commands in order; the second component is what the
/// buffer still holds.
pub open spec fn spec_drain(b: Seq<u8>) -> (Seq<SocketCommandView>, Seq<u8>)
    decreases b.len(),
    when b.len() >= 0
    via spec_drain_decreases
{
    match spec_step(b) {
        None => (Seq::empty(), b),
        Some(p) => {
            let rest = spec_drain(p.1);
            (seq![p.0] + rest.0, rest.1)
        },
    }
}

#[via_fn]
proof fn spec_drain_decreases(b: Seq<u8>) {
    lemma_step_shrinks(b);
}

/// How many whole frames fit in the first `f` bytes of a framed stream.
pub open spec fn spec_done(cs: Seq<SocketCommandView>, f: int) -> int
    decreases cs.len(),
{
    if cs.len() == 0 || f < spec_frame(cs[0]).len() {
        0
    } else {
        1 + spec_done(cs.skip(1), f - spec_frame(cs[0]).len())
    }
}

/// A framed stream splits at any frame count into its leading frames and
/// the frames of the rest.
pub proof fn lemma_frames_decompose(cs: Seq<SocketCommandView>, k: int)
    requires
        0 <= k <= cs.len(),
    ensures
        spec_frames(cs) == spec_frames(cs.take(k)) + spec_frames(cs.skip(k)),
    decreases k,
{
    if k == 0 {
        assert(cs.take(0) =~= Seq::<SocketCommandView>::empty());
        assert(cs.skip(0) =~= cs);
        assert(spec_frames(cs) =~= spec_frames(cs.take(0)) + spec_frames(cs.skip(0)));
    } else {
        lemma_frames_decompose(cs.skip(1), k - 1);
        assert(cs.take(k)[0] == cs[0]);
        assert(cs.take(k).skip(1) =~= cs.skip(1).take(k - 1));
        assert(cs.skip(k) =~= cs.skip(1).skip(k - 1));
        assert(spec_frames(cs) =~= spec_frames(cs.take(k)) + spec_frames(cs.skip(k)));
    }
}

/// Cleanliness and well-formedness carry over to any suffix of the
/// command sequence.
pub proof fn lemma_clean_skip(cs: Seq<SocketCommandView>, k: int)
    requires
        spec_clean(cs),
        spec_wf_all(cs),
        0 <= k <= cs.len(),
    ensures
        spec_clean(cs.skip(k)),
        spec_wf_all(cs.skip(k)),
    decreases k,
{
    if k == 0 {
        assert(cs.skip(0) =~= cs);
    } else {
        lemma_clean_suffix(cs);
        assert(spec_wf_all(cs.skip(1))) by {
            assert forall|i: int| 0 <= i < cs.skip(1).len() implies (
            #[trigger] cs.skip(1)[i]).wf() by {
                assert(cs.skip(1)[i] == cs[i + 1]);
            }
        }
        lemma_clean_skip(cs.skip(1), k - 1);
        assert(cs.skip(k) =~= cs.skip(1).skip(k - 1));
    }
}

/// Draining any prefix of a clean framed stream yields exactly the
/// commands whose frames are complete within it, and holds the partial
/// frame that follows them.
pub proof fn lemma_drain_on_prefix(cs: Seq<SocketCommandView>, f: int)
    requires
        spec_wf_all(cs),
        spec_clean(cs),
        0 <= f <= spec_frames(cs).len(),
    ensures
        ({
            let k = spec_done(cs, f);
            &&& 0 <= k <= cs.len()
            &&& spec_frames(cs.take(k)).len() <= f
            &&& spec_drain(spec_frames(cs).take(f)) == (
                cs.take(k),
                spec_frames(cs.skip(k)).take(f - spec_frames(cs.take(k)).len()),
            )
            &&& (k < cs.len() ==> f - spec_frames(cs.take(k)).len() < spec_frame(
                cs.skip(k)[0],
            ).len())
        }),
    decreases cs.len(),
{
    let b = spec_frames(cs).take(f);
    if cs.len() == 0 {
        assert(spec_frames(cs).len() == 0);
        assert(b =~= Seq::<u8>::empty());
        lemma_find_marker(b, 0);
        assert(spec_step(b) is None);
        assert(cs.take(0) =~= cs);
        assert(cs.skip(0) =~= cs);
        assert(spec_frames(cs.take(0)).len() == 0);
        assert(spec_frames(cs.skip(0)).take(f) =~= b);
    } else {
        let f0 = spec_frame(cs[0]).len();
        lemma_frame_len(cs[0]);
        lemma_frames_len(cs);
        lemma_step_on_prefix(cs, f);
        if f < f0 {
            assert(spec_done(cs, f) == 0);
            assert(spec_step(b) is None);
            assert(cs.take(0) =~= Seq::<SocketCommandView>::empty());
            assert(spec_frames(cs.take(0)).len() == 0);
            assert(cs.skip(0) =~= cs);
            assert(spec_frames(cs.skip(0)).take(f) =~= b);
            assert(cs.skip(0)[0] == cs[0]);
        } else {
            let tail = cs.skip(1);
            let g = f - f0;
            assert(spec_step(b) == Some((cs[0], spec_frames(tail).take(g))));
            lemma_clean_skip(cs, 1);
            assert(g <= spec_frames(tail).len());
            lemma_drain_on_prefix(tail, g);
            let k1 = spec_done(tail, g);
            let k = spec_done(cs, f);
            assert(k == 1 + k1);
            assert(cs.take(k)[0] == cs[0]);
            assert(cs.take(k).skip(1) =~= tail.take(k1));
            assert(cs.skip(k) =~= tail.skip(k1));
            assert(spec_frames(cs.take(k)) =~= spec_frame(cs[0]) + spec_frames(tail.take(k1)));
            assert(spec_frames(cs.take(k)).len() == f0 + spec_frames(tail.take(k1)).len());
            let rest = spec_drain(spec_frames(tail).take(g));
            assert(spec_drain(b) == (seq![cs[0]] + rest.0, rest.1));
            assert(seq![cs[0]] + tail.take(k1) =~= cs.take(k));
            assert(g - spec_frames(tail.take(k1)).len() == f - spec_frames(cs.take(k)).len());
        }
    }
}

/// A chunked byte stream, reassembled.
pub open spec fn spec_flatten(chunks: Seq<Seq<u8>>) -> Seq<u8>
    decreases chunks.len(),
{
    if chunks.len() == 0 {
        Seq::empty()
    } else {
        chunks[0] + spec_flatten(chunks.skip(1))
    }
}

/// Feeding a decoder chunk by chunk: each chunk is appended to the held
/// buffer and the buffer drained, collecting every decoded command.
pub open spec fn spec_feed(buf: Seq<u8>, chunks: Seq<Seq<u8>>) -> (
    Seq<SocketCommandView>,
    Seq<u8>,
)
    decreases chunks.len(),
{
    if chunks.len() == 0 {
        (Seq::empty(), buf)
    } else {
        let d = spec_drain(buf + chunks[0]);
        let rest = spec_feed(d.1, chunks.skip(1));
        (d.0 + rest.0, rest.1)
    }
}

/// Feeding the remaining bytes of a clean framed stream, in any chunks,
/// into a decoder that holds an undrainable partial first frame yields
/// exactly the remaining commands and ends with an empty buffer.
proof fn lemma_feed_from(cs: Seq<SocketCommandView>, g: int, chunks: Seq<Seq<u8>>)
    requires
        spec_wf_all(cs),
        spec_clean(cs),
        0 <= g <= spec_frames(cs).len(),
        cs.len() > 0 ==> g < spec_frame(cs[0]).len(),
        spec_flatten(chunks) == spec_frames(cs).skip(g),
    ensures
        spec_feed(spec_frames(cs).take(g), chunks) == (cs, Seq::<u8>::empty()),
    decreases chunks.len(),
{
    let b = spec_frames(cs);
    if chunks.len() == 0 {
        assert(b.skip(g).len() == 0);
        if cs.len() > 0 {
            lemma_frames_len(cs);
            lemma_frame_len(cs[0]);
        }
        assert(cs.len() == 0);
        assert(b.take(g) =~= Seq::<u8>::empty());
        assert(cs =~= Seq::<SocketCommandView>::empty());
    } else {
        let c0 = chunks[0];
        assert(c0 + spec_flatten(chunks.skip(1)) == b.skip(g));
        let f = g + c0.len();
        assert(f <= b.len()) by {
            assert(b.skip(g).len() == b.len() - g);
        }
        assert(b.take(g) + c0 =~= b.take(f)) by {
            assert(forall|i: int| 0 <= i < c0.len() ==> c0[i] == b.skip(g)[i]);
        }
        lemma_drain_on_prefix(cs, f);
        let k = spec_done(cs, f);
        let bl = spec_frames(cs.take(k)).len();
        let g2 = f - bl;
        let tail = cs.skip(k);
        lemma_clean_skip(cs, k);
        lemma_frames_decompose(cs, k);
        assert(spec_frames(tail).len() == b.len() - bl);
        assert(g2 <= spec_frames(tail).len());
        assert(spec_flatten(chunks.skip(1)) =~= spec_frames(tail).skip(g2)) by {
            assert(spec_flatten(chunks.skip(1)).len() == b.len() - f);
            assert forall|i: int| 0 <= i < b.len() - f implies spec_flatten(chunks.skip(1))[i]
                == spec_frames(tail).skip(g2)[i] by {
                assert(spec_flatten(chunks.skip(1))[i] == b.skip(g)[c0.len() + i]);
                assert(b.skip(g)[c0.len() + i] == b[f + i]);
                assert(spec_frames(tail)[g2 + i] == b[bl + g2 + i]);
            }
        }
        lemma_feed_from(tail, g2, chunks.skip(1));
        let d = spec_drain(b.take(g) + c0);
        assert(d == (cs.take(k), spec_frames(tail).take(g2)));
        let rest = spec_feed(d.1, chunks.skip(1));
        assert(rest == (tail, Seq::<u8>::empty()));
        assert(cs.take(k) + tail =~= cs);
    }
}

/// Chunk-size independence: a clean framed stream fed to the decoder in
/// arbitrary chunks yields exactly its commands, in order, with nothing
/// held back — the same as feeding the whole stream at once.
pub proof fn lemma_chunk_size_independence(cs: Seq<SocketCommandView>, chunks: Seq<Seq<u8>>)
    requires
        spec_wf_all(cs),
        spec_clean(cs),
        spec_flatten(chunks) == spec_frames(cs),
    ensures
        spec_feed(Seq::empty(), chunks) == (cs, Seq::<u8>::empty()),
        spec_drain(spec_frames(cs)) == (cs, Seq::<u8>::empty()),
{
    let b = spec_frames(cs);
    assert(b.take(0) =~= Seq::<u8>::empty());
    assert(b.skip(0) =~= b);
    if cs.len() > 0 {
        lemma_frame_len(cs[0]);
    }
    lemma_feed_from(cs, 0, chunks);
    // Feeding the whole stream as one chunk is draining it at once.
    let one = seq![b];
    assert(one.skip(1).len() == 0);
    assert(spec_flatten(one.skip(1)) == Seq::<u8>::empty());
    assert(one[0] == b);
    assert(spec_flatten(one) =~= b);
    lemma_feed_from(cs, 0, one);
    let d = spec_drain(Seq::empty() + b);
    assert(Seq::empty() + b =~= b);
    assert(spec_feed(d.1, one.skip(1)) == (Seq::<SocketCommandView>::empty(), d.1));
    assert(d.0 + Seq::<SocketCommandView>::empty() =~= d.0);
}

/// Two consecutive well-framed commands decode to exactly those two
/// commands in order; the first round consumes exactly the bytes before
/// the second frame's marker, and the second consumes the rest.
pub proof fn lemma_two_framed_commands(c1: SocketCommandView, c2: SocketCommandView)
    requires
        c1.wf(),
        c2.wf(),
        spec_clean(seq![c1, c2]),
    ensures
        spec_step(spec_frames(seq![c1, c2])) == Some((c1, spec_frames(seq![c2]))),
        spec_step(spec_frames(seq![c2])) == Some((c2, Seq::<u8>::empty())),
        spec_drain(spec_frames(seq![c1, c2])) == (seq![c1, c2], Seq::<u8>::empty()),
{
    let cs = seq![c1, c2];
    assert(spec_wf_all(cs)) by {
        assert(cs[0] == c1 && cs[1] == c2);
    }
    lemma_frames_len(cs);
    lemma_frame_len(c1);
    lemma_frame_len(c2);
    let b = spec_frames(cs);
    assert(b.take(b.len() as int) =~= b);
    lemma_step_on_prefix(cs, b.len() as int);
    assert(cs.skip(1) =~= seq![c2]);
    let b2 = spec_frames(seq![c2]);
    lemma_frames_len(seq![c2]);
    assert(b2.take(b2.len() as int) =~= b2);
    assert(spec_step(b) == Some((c1, b2)));
    lemma_clean_skip(cs, 1);
    lemma_step_on_prefix(seq![c2], b2.len() as int);
    assert(seq![c2].skip(1).len() == 0);
    assert(spec_frames(seq![c2].skip(1)).take(0) =~= Seq::<u8>::empty());
    assert(spec_step(b2) == Some((c2, Seq::<u8>::empty())));
    assert(seq![b].skip(1).len() == 0);
    assert(spec_flatten(seq![b].skip(1)) == Seq::<u8>::empty());
    assert(seq![b][0] == b);
    assert(spec_flatten(seq![b]) =~= b);
    lemma_chunk_size_independence(cs, seq![b]);
}

/// A marker followed by an incomplete payload yields no command and
/// discards nothing, however the bytes arrived; once the rest of the
/// frame arrives, it yields exactly that one command.
pub proof fn lemma_incomplete_then_complete(c: SocketCommandView, f: int)
    requires
        c.wf(),
        spec_clean(seq![c]),
        0 <= f < spec_frame(c).len(),
    ensures
        spec_drain(spec_frames(seq![c]).take(f)) == (
            Seq::<SocketCommandView>::empty(),
            spec_frames(seq![c]).take(f),
        ),
        spec_feed(
            Seq::empty(),
            seq![spec_frames(seq![c]).take(f), spec_frames(seq![c]).skip(f)],
        ) == (seq![c], Seq::<u8>::empty()),
{
    let cs = seq![c];
    assert(spec_wf_all(cs)) by {
        assert(cs[0] == c);
    }
    lemma_frames_len(cs);
    lemma_frame_len(c);
    let b = spec_frames(cs);
    lemma_step_on_prefix(cs, f);
    assert(spec_step(b.take(f)) is None);
    let chunks = seq![b.take(f), b.skip(f)];
    assert(spec_flatten(chunks) =~= b) by {
        assert(chunks.skip(1) =~= seq![b.skip(f)]);
        assert(seq![b.skip(f)].skip(1).len() == 0);
        assert(spec_flatten(seq![b.skip(f)].skip(1)) == Seq::<u8>::empty());
        assert(seq![b.skip(f)][0] == b.skip(f));
        assert(spec_flatten(seq![b.skip(f)]) =~= b.skip(f));
        assert(chunks[0] == b.take(f));
    }
    lemma_chunk_size_independence(cs, chunks);
}

/// A strict prefix of a command's encoding never parses: the decoder
/// waits for the rest rather than misreading a truncated payload.
pub proof fn lemma_parse_prefix_none(c: SocketCommandView, j: int)
    requires
        c.wf(),
        0 <= j < spec_command_bytes(c).len(),
    ensures
        spec_parse_command(spec_command_bytes(c).take(j)) is None,
{
    let enc = spec_command_bytes(c);
    let t = enc.take(j);
    lemma_command_bytes_len(c);
    if j >= 1 {
        assert(t[0] == enc[0]);
        match c {
            SocketCommandView::GetCoolantTemp => {
            },
            SocketCommandView::GetPumpSpeed => {
            },
            SocketCommandView::SetFanTarget(_, _) => {
            },
            SocketCommandView::SetColors(cs) => {
                crate::socket_command::lemma_rgb_flat_len(cs);
            },
        }
    }
}

} // verus!
