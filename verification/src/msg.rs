//! The protocol's data model: vectors and triangles as plain integer values,
//! the camera view, and the two tagged unions that travel on the wire.
//!
//! Vector components are IEEE 754 single-precision bit patterns carried as
//! `u32`, so that the codec is exact: the viewer and its clients convert to
//! and from `f32` at the boundary, and a value sent and read back compares
//! bit for bit.

use vstd::prelude::*;

verus! {

/// One 3-component vector, each component the bit pattern of an `f32`.
#[derive(Clone, Copy, Debug, PartialEq, Eq, Structural)]
pub struct Vec3Bits {
    pub x: u32,
    pub y: u32,
    pub z: u32,
}

/// One triangle: three indices into a vertex list.
#[derive(Clone, Copy, Debug, PartialEq, Eq, Structural)]
pub struct Tri {
    pub a: i32,
    pub b: i32,
    pub c: i32,
}

/// The camera state: eye position and look-at target.
#[derive(Clone, Copy, Debug, PartialEq, Eq, Structural)]
pub struct CameraView {
    pub position: Vec3Bits,
    pub look_at: Vec3Bits,
}

/// A client-to-server message. Exactly one of these per frame.
#[derive(Debug)]
pub enum Message {
    /// A mesh to display: vertex positions and triangle index lists.
    /// Face indices must be valid into `verts`; the codec does not check them.
    Mesh { verts: Vec<Vec3Bits>, faces: Vec<Tri> },
    /// Replace the camera view.
    SetView(CameraView),
    /// Ask for the current camera view; the server owes exactly one reply.
    RequestView,
}

/// A server-to-client reply. Exactly one per `RequestView`.
#[derive(Clone, Copy, Debug, PartialEq, Eq, Structural)]
pub enum Response {
    /// The camera view at the moment the request was dequeued.
    GetView(CameraView),
    /// Reserved for replies that carry no view.
    Other,
}

/// The mathematical model of a `Message`: vertex and face lists as sequences.
pub enum MessageModel {
    Mesh { verts: Seq<Vec3Bits>, faces: Seq<Tri> },
    SetView(CameraView),
    RequestView,
}

impl View for Message {
    type V = MessageModel;

    open spec fn view(&self) -> MessageModel {
        match self {
            Message::Mesh { verts, faces } => MessageModel::Mesh { verts: verts@, faces: faces@ },
            Message::SetView(v) => MessageModel::SetView(*v),
            Message::RequestView => MessageModel::RequestView,
        }
    }
}

impl Message {
    /// Whether this message variant demands a reply before the connection
    /// may carry the next frame.
    pub open spec fn spec_requires_response(&self) -> bool {
        self is RequestView
    }

    /// The request-bearing variant is `RequestView`; the others are
    /// fire-and-forget.
    pub fn requires_response(&self) -> (b: bool)
        ensures
            b == self.spec_requires_response(),
    {
        match self {
            Message::Mesh { .. } => false,
            Message::SetView(_) => false,
            Message::RequestView => true,
        }
    }
}

/// Structural equality of two vertex lists.
fn vec3s_eq(a: &Vec<Vec3Bits>, b: &Vec<Vec3Bits>) -> (r: bool)
    ensures
        r == (a@ == b@),
{
    if a.len() != b.len() {
        return false;
    }
    let n = a.len();
    let mut i: usize = 0;
    while i < n
        invariant
            n == a.len() == b.len(),
            0 <= i <= n,
            forall|k: int| 0 <= k < i ==> a@[k] == b@[k],
        decreases n - i,
    {
        if a[i] != b[i] {
            return false;
        }
        i = i + 1;
    }
    proof {
        assert(a@ =~= b@);
    }
    true
}

/// Structural equality of two face lists.
fn tris_eq(a: &Vec<Tri>, b: &Vec<Tri>) -> (r: bool)
    ensures
        r == (a@ == b@),
{
    if a.len() != b.len() {
        return false;
    }
    let n = a.len();
    let mut i: usize = 0;
    while i < n
        invariant
            n == a.len() == b.len(),
            0 <= i <= n,
            forall|k: int| 0 <= k < i ==> a@[k] == b@[k],
        decreases n - i,
    {
        if a[i] != b[i] {
            return false;
        }
        i = i + 1;
    }
    proof {
        assert(a@ =~= b@);
    }
    true
}

impl PartialEq for Message {
    /// Structural equality across all three variants.
    fn eq(&self, other: &Message) -> (r: bool) {
        match (self, other) {
            (
                Message::Mesh { verts: va, faces: fa },
                Message::Mesh { verts: vb, faces: fb },
            ) => vec3s_eq(va, vb) && tris_eq(fa, fb),
            (Message::SetView(a), Message::SetView(b)) => a == b,
            (Message::RequestView, Message::RequestView) => true,
            _ => false,
        }
    }
}

impl vstd::std_specs::cmp::PartialEqSpecImpl for Message {
    open spec fn obeys_eq_spec() -> bool {
        true
    }

    open spec fn eq_spec(&self, other: &Message) -> bool {
        self@ == other@
    }
}

} // verus!
