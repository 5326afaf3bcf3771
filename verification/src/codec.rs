//! The wire codec: a compact, self-describing binary encoding of the two
//! tagged unions. A payload starts with a one-byte variant tag; array
//! dimensions are encoded inline, as little-endian 64-bit counts, before
//! their element data; every multi-byte number is little-endian.
//!
//! Layouts, by tag:
//! - mesh: tag, vertex count, the vertices (12 bytes each), face count,
//!   the faces (12 bytes each);
//! - set-view: tag, the camera view (24 bytes);
//! - request-view / other: the tag alone;
//! - get-view: tag, the camera view (24 bytes).
//!
//! A payload decodes successfully if and only if it is byte-for-byte the
//! encoding of some value: trailing bytes, short bodies and unknown tags
//! are malformed, never ignored.

use vstd::bytes::*;
use vstd::prelude::*;
use vstd::slice::slice_subrange;

use crate::msg::{CameraView, Message, MessageModel, Response, Tri, Vec3Bits};

verus! {

/// Hard cap on one payload's size in bytes, so that a malformed length
/// field cannot demand an unbounded allocation.
pub const MAX_PAYLOAD_LEN: u64 = 0x1000_0000;

pub const TAG_MESH: u8 = 0;
pub const TAG_SET_VIEW: u8 = 1;
pub const TAG_REQUEST_VIEW: u8 = 2;

pub const TAG_GET_VIEW: u8 = 0;
pub const TAG_OTHER: u8 = 1;

/// Why a stream or payload was rejected. Every variant is fatal to the
/// connection it occurred on.
#[derive(Clone, Copy, Debug, PartialEq, Eq, Structural)]
pub enum WireError {
    /// The length prefix ended mid-way: some bytes arrived, but fewer
    /// than the prefix needs.
    TruncatedHeader,
    /// The length prefix demands more than the payload cap allows.
    OversizedLength,
    /// The stream carries fewer payload bytes than the prefix announced.
    TruncatedPayload,
    /// The payload is not the encoding of any known variant.
    MalformedPayload,
    /// A reply was of a variant the protocol does not allow at that point.
    UnexpectedReply,
}

// ---------------------------------------------------------------------------
// What the bytes of each value are.
// ---------------------------------------------------------------------------

pub open spec fn vec3_to_bytes(v: Vec3Bits) -> Seq<u8> {
    spec_u32_to_le_bytes(v.x) + spec_u32_to_le_bytes(v.y) + spec_u32_to_le_bytes(v.z)
}

pub open spec fn vec3_of_bytes(b: Seq<u8>) -> Vec3Bits
    recommends
        b.len() == 12,
{
    Vec3Bits {
        x: spec_u32_from_le_bytes(b.subrange(0, 4)),
        y: spec_u32_from_le_bytes(b.subrange(4, 8)),
        z: spec_u32_from_le_bytes(b.subrange(8, 12)),
    }
}

/// Face indices travel as the two's-complement bit patterns of their
/// 32-bit values.
pub open spec fn tri_to_bytes(t: Tri) -> Seq<u8> {
    spec_u32_to_le_bytes(t.a as u32) + spec_u32_to_le_bytes(t.b as u32) + spec_u32_to_le_bytes(
        t.c as u32,
    )
}

pub open spec fn tri_of_bytes(b: Seq<u8>) -> Tri
    recommends
        b.len() == 12,
{
    Tri {
        a: spec_u32_from_le_bytes(b.subrange(0, 4)) as i32,
        b: spec_u32_from_le_bytes(b.subrange(4, 8)) as i32,
        c: spec_u32_from_le_bytes(b.subrange(8, 12)) as i32,
    }
}

pub open spec fn view_to_bytes(v: CameraView) -> Seq<u8> {
    vec3_to_bytes(v.position) + vec3_to_bytes(v.look_at)
}

pub open spec fn view_of_bytes(b: Seq<u8>) -> CameraView
    recommends
        b.len() == 24,
{
    CameraView {
        position: vec3_of_bytes(b.subrange(0, 12)),
        look_at: vec3_of_bytes(b.subrange(12, 24)),
    }
}

pub open spec fn vec3s_to_bytes(s: Seq<Vec3Bits>) -> Seq<u8>
    decreases s.len(),
{
    if s.len() == 0 {
        Seq::empty()
    } else {
        vec3_to_bytes(s[0]) + vec3s_to_bytes(s.drop_first())
    }
}

pub open spec fn tris_to_bytes(s: Seq<Tri>) -> Seq<u8>
    decreases s.len(),
{
    if s.len() == 0 {
        Seq::empty()
    } else {
        tri_to_bytes(s[0]) + tris_to_bytes(s.drop_first())
    }
}

/// The payload bytes of one message.
pub open spec fn spec_encode_message(m: MessageModel) -> Seq<u8> {
    match m {
        MessageModel::Mesh { verts, faces } => seq![TAG_MESH] + spec_u64_to_le_bytes(
            verts.len() as u64,
        ) + vec3s_to_bytes(verts) + spec_u64_to_le_bytes(faces.len() as u64) + tris_to_bytes(faces),
        MessageModel::SetView(v) => seq![TAG_SET_VIEW] + view_to_bytes(v),
        MessageModel::RequestView => seq![TAG_REQUEST_VIEW],
    }
}

/// The payload bytes of one response.
pub open spec fn spec_encode_response(r: Response) -> Seq<u8> {
    match r {
        Response::GetView(v) => seq![TAG_GET_VIEW] + view_to_bytes(v),
        Response::Other => seq![TAG_OTHER],
    }
}

/// The exact byte size of one message's payload.
pub open spec fn spec_message_len(m: MessageModel) -> int {
    match m {
        MessageModel::Mesh { verts, faces } => 17 + 12 * (verts.len() as int) + 12 * (
        faces.len() as int),
        MessageModel::SetView(_) => 25,
        MessageModel::RequestView => 1,
    }
}

/// A message small enough for the wire: its payload stays within the cap.
pub open spec fn message_fits(m: MessageModel) -> bool {
    spec_message_len(m) <= MAX_PAYLOAD_LEN
}

/// A message the encoding can name at all: its counts fit their 64-bit
/// wire fields. Every message held in executable vectors satisfies this.
pub open spec fn message_wf(m: MessageModel) -> bool {
    m matches MessageModel::Mesh { verts, faces } ==> verts.len() <= u64::MAX && faces.len()
        <= u64::MAX
}

// ---------------------------------------------------------------------------
// Which bytes are a valid payload, and of what value.
// ---------------------------------------------------------------------------

/// The mesh payload after its tag: counts inline before element data, and
/// nothing after the last face.
pub open spec fn spec_decode_mesh(b: Seq<u8>) -> Option<MessageModel> {
    if b.len() < 17 {
        None
    } else {
        let nv = spec_u64_from_le_bytes(b.subrange(1, 9)) as int;
        if b.len() < 17 + 12 * nv {
            None
        } else {
            let nf = spec_u64_from_le_bytes(b.subrange(9 + 12 * nv, 17 + 12 * nv)) as int;
            if b.len() == 17 + 12 * nv + 12 * nf {
                Some(
                    MessageModel::Mesh {
                        verts: Seq::new(
                            nv as nat,
                            |i: int| vec3_of_bytes(b.subrange(9 + 12 * i, 21 + 12 * i)),
                        ),
                        faces: Seq::new(
                            nf as nat,
                            |j: int|
                                tri_of_bytes(
                                    b.subrange(17 + 12 * nv + 12 * j, 29 + 12 * nv + 12 * j),
                                ),
                        ),
                    },
                )
            } else {
                None
            }
        }
    }
}

/// The one message, if any, whose encoding is exactly `b`.
pub open spec fn spec_decode_message(b: Seq<u8>) -> Option<MessageModel> {
    if b.len() == 0 {
        None
    } else if b[0] == TAG_MESH {
        spec_decode_mesh(b)
    } else if b[0] == TAG_SET_VIEW {
        if b.len() == 25 {
            Some(MessageModel::SetView(view_of_bytes(b.subrange(1, 25))))
        } else {
            None
        }
    } else if b[0] == TAG_REQUEST_VIEW {
        if b.len() == 1 {
            Some(MessageModel::RequestView)
        } else {
            None
        }
    } else {
        None
    }
}

/// The one response, if any, whose encoding is exactly `b`.
pub open spec fn spec_decode_response(b: Seq<u8>) -> Option<Response> {
    if b.len() == 0 {
        None
    } else if b[0] == TAG_GET_VIEW {
        if b.len() == 25 {
            Some(Response::GetView(view_of_bytes(b.subrange(1, 25))))
        } else {
            None
        }
    } else if b[0] == TAG_OTHER {
        if b.len() == 1 {
            Some(Response::Other)
        } else {
            None
        }
    } else {
        None
    }
}

// ---------------------------------------------------------------------------
// Facts about the byte forms.
// ---------------------------------------------------------------------------

pub proof fn lemma_vec3_to_bytes_len(v: Vec3Bits)
    ensures
        vec3_to_bytes(v).len() == 12,
{
    lemma_auto_spec_u32_to_from_le_bytes();
}

pub proof fn lemma_tri_to_bytes_len(t: Tri)
    ensures
        tri_to_bytes(t).len() == 12,
{
    lemma_auto_spec_u32_to_from_le_bytes();
}

pub proof fn lemma_vec3_round_trip(v: Vec3Bits)
    ensures
        vec3_to_bytes(v).len() == 12,
        vec3_of_bytes(vec3_to_bytes(v)) == v,
{
    lemma_auto_spec_u32_to_from_le_bytes();
    let b = vec3_to_bytes(v);
    assert(b.subrange(0, 4) =~= spec_u32_to_le_bytes(v.x));
    assert(b.subrange(4, 8) =~= spec_u32_to_le_bytes(v.y));
    assert(b.subrange(8, 12) =~= spec_u32_to_le_bytes(v.z));
}

proof fn lemma_i32_bits_round_trip(x: i32)
    ensures
        ((x as u32) as i32) == x,
{
    assert(((x as u32) as i32) == x) by (bit_vector);
}

pub proof fn lemma_tri_round_trip(t: Tri)
    ensures
        tri_to_bytes(t).len() == 12,
        tri_of_bytes(tri_to_bytes(t)) == t,
{
    lemma_auto_spec_u32_to_from_le_bytes();
    let b = tri_to_bytes(t);
    assert(b.subrange(0, 4) =~= spec_u32_to_le_bytes(t.a as u32));
    assert(b.subrange(4, 8) =~= spec_u32_to_le_bytes(t.b as u32));
    assert(b.subrange(8, 12) =~= spec_u32_to_le_bytes(t.c as u32));
    lemma_i32_bits_round_trip(t.a);
    lemma_i32_bits_round_trip(t.b);
    lemma_i32_bits_round_trip(t.c);
}

pub proof fn lemma_view_round_trip(v: CameraView)
    ensures
        view_to_bytes(v).len() == 24,
        view_of_bytes(view_to_bytes(v)) == v,
{
    lemma_vec3_round_trip(v.position);
    lemma_vec3_round_trip(v.look_at);
    let b = view_to_bytes(v);
    assert(b.subrange(0, 12) =~= vec3_to_bytes(v.position));
    assert(b.subrange(12, 24) =~= vec3_to_bytes(v.look_at));
}

pub proof fn lemma_vec3s_to_bytes_len(s: Seq<Vec3Bits>)
    ensures
        vec3s_to_bytes(s).len() == 12 * s.len(),
    decreases s.len(),
{
    if s.len() == 0 {
    } else {
        lemma_vec3_to_bytes_len(s[0]);
        lemma_vec3s_to_bytes_len(s.drop_first());
    }
}

pub proof fn lemma_tris_to_bytes_len(s: Seq<Tri>)
    ensures
        tris_to_bytes(s).len() == 12 * s.len(),
    decreases s.len(),
{
    if s.len() == 0 {
    } else {
        lemma_tri_to_bytes_len(s[0]);
        lemma_tris_to_bytes_len(s.drop_first());
    }
}

/// Element `i` of a vertex list owns bytes `12 * i` up to `12 * i + 12` of
/// the list's encoding.
pub proof fn lemma_vec3s_to_bytes_index(s: Seq<Vec3Bits>, i: int)
    requires
        0 <= i < s.len(),
    ensures
        vec3s_to_bytes(s).subrange(12 * i, 12 * i + 12) == vec3_to_bytes(s[i]),
    decreases i,
{
    lemma_vec3s_to_bytes_len(s);
    lemma_vec3s_to_bytes_len(s.drop_first());
    lemma_vec3_to_bytes_len(s[0]);
    if i == 0 {
        assert(vec3s_to_bytes(s).subrange(0, 12) =~= vec3_to_bytes(s[0]));
    } else {
        lemma_vec3s_to_bytes_index(s.drop_first(), i - 1);
        assert(vec3s_to_bytes(s).subrange(12 * i, 12 * i + 12) =~= vec3s_to_bytes(
            s.drop_first(),
        ).subrange(12 * (i - 1), 12 * (i - 1) + 12));
    }
}

/// Element `j` of a face list owns bytes `12 * j` up to `12 * j + 12` of
/// the list's encoding.
pub proof fn lemma_tris_to_bytes_index(s: Seq<Tri>, j: int)
    requires
        0 <= j < s.len(),
    ensures
        tris_to_bytes(s).subrange(12 * j, 12 * j + 12) == tri_to_bytes(s[j]),
    decreases j,
{
    lemma_tris_to_bytes_len(s);
    lemma_tris_to_bytes_len(s.drop_first());
    lemma_tri_to_bytes_len(s[0]);
    if j == 0 {
        assert(tris_to_bytes(s).subrange(0, 12) =~= tri_to_bytes(s[0]));
    } else {
        lemma_tris_to_bytes_index(s.drop_first(), j - 1);
        assert(tris_to_bytes(s).subrange(12 * j, 12 * j + 12) =~= tris_to_bytes(
            s.drop_first(),
        ).subrange(12 * (j - 1), 12 * (j - 1) + 12));
    }
}

/// Appending one vertex appends its 12 bytes.
pub proof fn lemma_vec3s_to_bytes_push(s: Seq<Vec3Bits>, v: Vec3Bits)
    ensures
        vec3s_to_bytes(s.push(v)) == vec3s_to_bytes(s) + vec3_to_bytes(v),
    decreases s.len(),
{
    if s.len() == 0 {
        assert(s.push(v).drop_first() =~= s);
        assert(vec3s_to_bytes(s.push(v)) =~= vec3s_to_bytes(s) + vec3_to_bytes(v));
    } else {
        assert(s.push(v).drop_first() =~= s.drop_first().push(v));
        lemma_vec3s_to_bytes_push(s.drop_first(), v);
        assert(vec3s_to_bytes(s.push(v)) =~= vec3s_to_bytes(s) + vec3_to_bytes(v));
    }
}

/// Appending one face appends its 12 bytes.
pub proof fn lemma_tris_to_bytes_push(s: Seq<Tri>, t: Tri)
    ensures
        tris_to_bytes(s.push(t)) == tris_to_bytes(s) + tri_to_bytes(t),
    decreases s.len(),
{
    if s.len() == 0 {
        assert(s.push(t).drop_first() =~= s);
        assert(tris_to_bytes(s.push(t)) =~= tris_to_bytes(s) + tri_to_bytes(t));
    } else {
        assert(s.push(t).drop_first() =~= s.drop_first().push(t));
        lemma_tris_to_bytes_push(s.drop_first(), t);
        assert(tris_to_bytes(s.push(t)) =~= tris_to_bytes(s) + tri_to_bytes(t));
    }
}

/// An encoding is exactly as long as the payload size formula says.
pub proof fn lemma_encode_message_len(m: MessageModel)
    ensures
        spec_encode_message(m).len() == spec_message_len(m),
{
    lemma_auto_spec_u64_to_from_le_bytes();
    match m {
        MessageModel::Mesh { verts, faces } => {
            lemma_vec3s_to_bytes_len(verts);
            lemma_tris_to_bytes_len(faces);
        },
        MessageModel::SetView(v) => {
            lemma_vec3_to_bytes_len(v.position);
            lemma_vec3_to_bytes_len(v.look_at);
        },
        MessageModel::RequestView => {},
    }
}

// ---------------------------------------------------------------------------
// Round trip: decoding an encoding gives the value back.
// ---------------------------------------------------------------------------

/// Round-trip law: for any message, decoding its encoding yields it back,
/// structurally equal, across all three variants.
pub proof fn lemma_message_round_trip(m: MessageModel)
    requires
        message_wf(m),
    ensures
        spec_encode_message(m).len() == spec_message_len(m),
        spec_decode_message(spec_encode_message(m)) == Some(m),
{
    lemma_auto_spec_u64_to_from_le_bytes();
    let enc = spec_encode_message(m);
    match m {
        MessageModel::Mesh { verts, faces } => {
            let nv = verts.len() as int;
            let nf = faces.len() as int;
            lemma_vec3s_to_bytes_len(verts);
            lemma_tris_to_bytes_len(faces);
            assert(enc.len() == 17 + 12 * nv + 12 * nf);
            assert(enc[0] == TAG_MESH);
            assert(enc.subrange(1, 9) =~= spec_u64_to_le_bytes(verts.len() as u64));
            assert(enc.subrange(9 + 12 * nv, 17 + 12 * nv) =~= spec_u64_to_le_bytes(
                faces.len() as u64,
            ));
            assert(spec_u64_from_le_bytes(enc.subrange(1, 9)) == nv);
            assert(spec_u64_from_le_bytes(enc.subrange(9 + 12 * nv, 17 + 12 * nv)) == nf);
            let dverts = Seq::new(
                nv as nat,
                |i: int| vec3_of_bytes(enc.subrange(9 + 12 * i, 21 + 12 * i)),
            );
            assert forall|i: int| 0 <= i < nv implies dverts[i] == verts[i] by {
                lemma_vec3s_to_bytes_index(verts, i);
                assert(enc.subrange(9 + 12 * i, 21 + 12 * i) =~= vec3s_to_bytes(verts).subrange(
                    12 * i,
                    12 * i + 12,
                ));
                lemma_vec3_round_trip(verts[i]);
            }
            assert(dverts =~= verts);
            let dfaces = Seq::new(
                nf as nat,
                |j: int| tri_of_bytes(enc.subrange(17 + 12 * nv + 12 * j, 29 + 12 * nv + 12 * j)),
            );
            assert forall|j: int| 0 <= j < nf implies dfaces[j] == faces[j] by {
                lemma_tris_to_bytes_index(faces, j);
                assert(enc.subrange(17 + 12 * nv + 12 * j, 29 + 12 * nv + 12 * j)
                    =~= tris_to_bytes(faces).subrange(12 * j, 12 * j + 12));
                lemma_tri_round_trip(faces[j]);
            }
            assert(dfaces =~= faces);
        },
        MessageModel::SetView(v) => {
            lemma_view_round_trip(v);
            assert(enc.len() == 25);
            assert(enc[0] == TAG_SET_VIEW);
            assert(enc.subrange(1, 25) =~= view_to_bytes(v));
        },
        MessageModel::RequestView => {
            assert(enc.len() == 1);
        },
    }
}

// ---------------------------------------------------------------------------
// Executable encoders.
// ---------------------------------------------------------------------------

fn push_vec3(out: &mut Vec<u8>, v: Vec3Bits)
    ensures
        final(out)@ == old(out)@ + vec3_to_bytes(v),
{
    let ghost out0 = out@;
    let mut xb = u32_to_le_bytes(v.x);
    out.append(&mut xb);
    let mut yb = u32_to_le_bytes(v.y);
    out.append(&mut yb);
    let mut zb = u32_to_le_bytes(v.z);
    out.append(&mut zb);
    proof {
        assert(out@ =~= out0 + vec3_to_bytes(v));
    }
}

fn push_tri(out: &mut Vec<u8>, t: Tri)
    ensures
        final(out)@ == old(out)@ + tri_to_bytes(t),
{
    let ghost out0 = out@;
    let mut ab = u32_to_le_bytes(#[verifier::truncate] (t.a as u32));
    out.append(&mut ab);
    let mut bb = u32_to_le_bytes(#[verifier::truncate] (t.b as u32));
    out.append(&mut bb);
    let mut cb = u32_to_le_bytes(#[verifier::truncate] (t.c as u32));
    out.append(&mut cb);
    proof {
        assert(out@ =~= out0 + tri_to_bytes(t));
    }
}

/// Serializes one message into its payload bytes.
pub fn encode_payload(m: &Message) -> (out: Vec<u8>)
    ensures
        out@ == spec_encode_message(m@),
        out@.len() == spec_message_len(m@),
{
    proof {
        lemma_encode_message_len(m@);
    }
    match m {
        Message::Mesh { verts, faces } => {
            let mut out: Vec<u8> = Vec::new();
            out.push(TAG_MESH);
            let mut nvb = u64_to_le_bytes(verts.len() as u64);
            out.append(&mut nvb);
            let ghost prefix1 = seq![TAG_MESH] + spec_u64_to_le_bytes(verts@.len() as u64);
            proof {
                assert(out@ =~= prefix1);
            }
            let nverts = verts.len();
            let mut i: usize = 0;
            while i < nverts
                invariant
                    i <= nverts,
                    nverts == verts@.len(),
                    out@ == prefix1 + vec3s_to_bytes(verts@.subrange(0, i as int)),
                decreases nverts - i,
            {
                let vi = verts[i];
                push_vec3(&mut out, vi);
                proof {
                    lemma_vec3s_to_bytes_push(verts@.subrange(0, i as int), verts@[i as int]);
                    assert(verts@.subrange(0, i as int + 1) =~= verts@.subrange(
                        0,
                        i as int,
                    ).push(verts@[i as int]));
                }
                i = i + 1;
            }
            proof {
                assert(verts@.subrange(0, nverts as int) =~= verts@);
            }
            let mut nfb = u64_to_le_bytes(faces.len() as u64);
            out.append(&mut nfb);
            let ghost prefix2 = prefix1 + vec3s_to_bytes(verts@) + spec_u64_to_le_bytes(
                faces@.len() as u64,
            );
            proof {
                assert(out@ =~= prefix2);
            }
            let nfaces = faces.len();
            let mut j: usize = 0;
            while j < nfaces
                invariant
                    j <= nfaces,
                    nfaces == faces@.len(),
                    out@ == prefix2 + tris_to_bytes(faces@.subrange(0, j as int)),
                decreases nfaces - j,
            {
                let fj = faces[j];
                push_tri(&mut out, fj);
                proof {
                    lemma_tris_to_bytes_push(faces@.subrange(0, j as int), faces@[j as int]);
                    assert(faces@.subrange(0, j as int + 1) =~= faces@.subrange(
                        0,
                        j as int,
                    ).push(faces@[j as int]));
                }
                j = j + 1;
            }
            proof {
                assert(faces@.subrange(0, nfaces as int) =~= faces@);
                assert(out@ =~= spec_encode_message(m@));
            }
            out
        },
        Message::SetView(v) => {
            let mut out: Vec<u8> = Vec::new();
            out.push(TAG_SET_VIEW);
            push_vec3(&mut out, v.position);
            push_vec3(&mut out, v.look_at);
            proof {
                assert(out@ =~= spec_encode_message(m@));
            }
            out
        },
        Message::RequestView => {
            let mut out: Vec<u8> = Vec::new();
            out.push(TAG_REQUEST_VIEW);
            proof {
                assert(out@ =~= spec_encode_message(m@));
            }
            out
        },
    }
}

/// Serializes one response into its payload bytes.
pub fn encode_response_payload(r: &Response) -> (out: Vec<u8>)
    ensures
        out@ == spec_encode_response(*r),
        out@.len() <= 25,
{
    proof {
        lemma_response_round_trip(*r);
    }
    match r {
        Response::GetView(v) => {
            let mut out: Vec<u8> = Vec::new();
            out.push(TAG_GET_VIEW);
            push_vec3(&mut out, v.position);
            push_vec3(&mut out, v.look_at);
            proof {
                assert(out@ =~= spec_encode_response(*r));
            }
            out
        },
        Response::Other => {
            let mut out: Vec<u8> = Vec::new();
            out.push(TAG_OTHER);
            proof {
                assert(out@ =~= spec_encode_response(*r));
            }
            out
        },
    }
}

// ---------------------------------------------------------------------------
// Executable decoders.
// ---------------------------------------------------------------------------

fn read_vec3(b: &[u8], off: usize) -> (v: Vec3Bits)
    requires
        off + 12 <= b@.len(),
    ensures
        v == vec3_of_bytes(b@.subrange(off as int, off as int + 12)),
{
    // Binding the length brings the fact that it fits `usize` into scope
    // for the offset arithmetic below.
    let _slen = b.len();
    let x = u32_from_le_bytes(slice_subrange(b, off, off + 4));
    let y = u32_from_le_bytes(slice_subrange(b, off + 4, off + 8));
    let z = u32_from_le_bytes(slice_subrange(b, off + 8, off + 12));
    proof {
        let sub = b@.subrange(off as int, off as int + 12);
        assert(sub.subrange(0, 4) =~= b@.subrange(off as int, off as int + 4));
        assert(sub.subrange(4, 8) =~= b@.subrange(off as int + 4, off as int + 8));
        assert(sub.subrange(8, 12) =~= b@.subrange(off as int + 8, off as int + 12));
    }
    Vec3Bits { x, y, z }
}

fn read_tri(b: &[u8], off: usize) -> (t: Tri)
    requires
        off + 12 <= b@.len(),
    ensures
        t == tri_of_bytes(b@.subrange(off as int, off as int + 12)),
{
    // Binding the length brings the fact that it fits `usize` into scope
    // for the offset arithmetic below.
    let _slen = b.len();
    let a = u32_from_le_bytes(slice_subrange(b, off, off + 4));
    let bb = u32_from_le_bytes(slice_subrange(b, off + 4, off + 8));
    let c = u32_from_le_bytes(slice_subrange(b, off + 8, off + 12));
    proof {
        let sub = b@.subrange(off as int, off as int + 12);
        assert(sub.subrange(0, 4) =~= b@.subrange(off as int, off as int + 4));
        assert(sub.subrange(4, 8) =~= b@.subrange(off as int + 4, off as int + 8));
        assert(sub.subrange(8, 12) =~= b@.subrange(off as int + 8, off as int + 12));
    }
    Tri {
        a: #[verifier::truncate] (a as i32),
        b: #[verifier::truncate] (bb as i32),
        c: #[verifier::truncate] (c as i32),
    }
}

fn read_view(b: &[u8], off: usize) -> (v: CameraView)
    requires
        off + 24 <= b@.len(),
    ensures
        v == view_of_bytes(b@.subrange(off as int, off as int + 24)),
{
    // Binding the length brings the fact that it fits `usize` into scope
    // for the offset arithmetic below.
    let _slen = b.len();
    let position = read_vec3(b, off);
    let look_at = read_vec3(b, off + 12);
    proof {
        let sub = b@.subrange(off as int, off as int + 24);
        assert(sub.subrange(0, 12) =~= b@.subrange(off as int, off as int + 12));
        assert(sub.subrange(12, 24) =~= b@.subrange(off as int + 12, off as int + 24));
    }
    CameraView { position, look_at }
}

fn decode_mesh_payload(b: &[u8]) -> (r: Result<Message, WireError>)
    requires
        b@.len() > 0,
        b@[0] == TAG_MESH,
    ensures
        match r {
            Ok(m) => spec_decode_message(b@) == Some(m@),
            Err(e) => spec_decode_message(b@) is None && e == WireError::MalformedPayload,
        },
{
    if b.len() < 17 {
        return Err(WireError::MalformedPayload);
    }
    let nv64 = u64_from_le_bytes(slice_subrange(b, 1, 9));
    let len128 = b.len() as u128;
    let need_verts: u128 = 17 + 12 * (nv64 as u128);
    if len128 < need_verts {
        return Err(WireError::MalformedPayload);
    }
    let nv = nv64 as usize;
    let faces_cnt_off = 9 + 12 * nv;
    let nf64 = u64_from_le_bytes(slice_subrange(b, faces_cnt_off, faces_cnt_off + 8));
    let need_all: u128 = need_verts + 12 * (nf64 as u128);
    if len128 != need_all {
        return Err(WireError::MalformedPayload);
    }
    let nf = nf64 as usize;

    let mut verts: Vec<Vec3Bits> = Vec::new();
    let mut i: usize = 0;
    while i < nv
        invariant
            i <= nv,
            b@.len() <= usize::MAX,
            17 + 12 * (nv as int) <= b@.len(),
            verts@ == Seq::new(
                i as nat,
                |k: int| vec3_of_bytes(b@.subrange(9 + 12 * k, 21 + 12 * k)),
            ),
        decreases nv - i,
    {
        let v = read_vec3(b, 9 + 12 * i);
        verts.push(v);
        proof {
            assert(verts@ =~= Seq::new(
                (i + 1) as nat,
                |k: int| vec3_of_bytes(b@.subrange(9 + 12 * k, 21 + 12 * k)),
            ));
        }
        i = i + 1;
    }

    let faces_off = faces_cnt_off + 8;
    let mut faces: Vec<Tri> = Vec::new();
    let mut j: usize = 0;
    while j < nf
        invariant
            j <= nf,
            b@.len() <= usize::MAX,
            faces_off == 17 + 12 * (nv as int),
            faces_off + 12 * (nf as int) == b@.len(),
            faces@ == Seq::new(
                j as nat,
                |k: int|
                    tri_of_bytes(
                        b@.subrange(
                            17 + 12 * (nv as int) + 12 * k,
                            29 + 12 * (nv as int) + 12 * k,
                        ),
                    ),
            ),
        decreases nf - j,
    {
        let t = read_tri(b, faces_off + 12 * j);
        faces.push(t);
        proof {
            assert(faces@ =~= Seq::new(
                (j + 1) as nat,
                |k: int|
                    tri_of_bytes(
                        b@.subrange(
                            17 + 12 * (nv as int) + 12 * k,
                            29 + 12 * (nv as int) + 12 * k,
                        ),
                    ),
            ));
        }
        j = j + 1;
    }

    let msg = Message::Mesh { verts, faces };
    proof {
        let dm = spec_decode_mesh(b@);
        assert(dm is Some);
        let model = dm.unwrap();
        match model {
            MessageModel::Mesh { verts: sv, faces: sf } => {
                assert(sv =~= verts@);
                assert(sf =~= faces@);
            },
            _ => {
                assert(false);
            },
        }
        assert(spec_decode_message(b@) == Some(msg@));
    }
    Ok(msg)
}

/// Parses one payload into the message it encodes; a payload that is not
/// byte-for-byte the encoding of some message is malformed.
pub fn decode_payload(b: &[u8]) -> (r: Result<Message, WireError>)
    ensures
        match r {
            Ok(m) => spec_decode_message(b@) == Some(m@),
            Err(e) => spec_decode_message(b@) is None && e == WireError::MalformedPayload,
        },
{
    if b.len() == 0 {
        return Err(WireError::MalformedPayload);
    }
    let tag = b[0];
    if tag == TAG_MESH {
        decode_mesh_payload(b)
    } else if tag == TAG_SET_VIEW {
        if b.len() == 25 {
            let view = read_view(b, 1);
            Ok(Message::SetView(view))
        } else {
            Err(WireError::MalformedPayload)
        }
    } else if tag == TAG_REQUEST_VIEW {
        if b.len() == 1 {
            Ok(Message::RequestView)
        } else {
            Err(WireError::MalformedPayload)
        }
    } else {
        Err(WireError::MalformedPayload)
    }
}

/// Parses one payload into the response it encodes.
pub fn decode_response_payload(b: &[u8]) -> (r: Result<Response, WireError>)
    ensures
        match r {
            Ok(resp) => spec_decode_response(b@) == Some(resp),
            Err(e) => spec_decode_response(b@) is None && e == WireError::MalformedPayload,
        },
{
    if b.len() == 0 {
        return Err(WireError::MalformedPayload);
    }
    let tag = b[0];
    if tag == TAG_GET_VIEW {
        if b.len() == 25 {
            let view = read_view(b, 1);
            Ok(Response::GetView(view))
        } else {
            Err(WireError::MalformedPayload)
        }
    } else if tag == TAG_OTHER {
        if b.len() == 1 {
            Ok(Response::Other)
        } else {
            Err(WireError::MalformedPayload)
        }
    } else {
        Err(WireError::MalformedPayload)
    }
}

/// Runs one message through the codec and back: the decoded value is
/// structurally equal to the one given.
pub fn serde_array(m: &Message) -> (r: Option<Message>)
    requires
        message_wf(m@),
    ensures
        r matches Some(d) && d@ == m@,
{
    let bytes = encode_payload(m);
    proof {
        lemma_message_round_trip(m@);
    }
    match decode_payload(bytes.as_slice()) {
        Ok(d) => Some(d),
        Err(_) => None,
    }
}

/// Decoding the encoding of a response yields it back, for both variants.
pub proof fn lemma_response_round_trip(r: Response)
    ensures
        spec_encode_response(r).len() <= 25,
        spec_decode_response(spec_encode_response(r)) == Some(r),
{
    let enc = spec_encode_response(r);
    match r {
        Response::GetView(v) => {
            lemma_view_round_trip(v);
            assert(enc.len() == 25);
            assert(enc[0] == TAG_GET_VIEW);
            assert(enc.subrange(1, 25) =~= view_to_bytes(v));
        },
        Response::Other => {
            assert(enc.len() == 1);
        },
    }
}

} // verus!
