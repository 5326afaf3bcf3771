//! The server side of the protocol: the camera state the update loop owns,
//! the handling of each dequeued message, and the listener thread's
//! per-connection decisions.
//!
//! The update loop drains the inbound queue at its own pace and must put
//! exactly one reply on the outbound queue for every view request it
//! dequeues, in the order received; the listener holds its read loop until
//! that reply has been written back. The rendering collaborator receives the
//! decoded values and owns its own scheduling.

use vstd::prelude::*;

use crate::codec::{spec_decode_message, decode_payload, spec_encode_response, WireError};
use crate::frame::{encode_response, spec_frame};
use crate::msg::{CameraView, Message, MessageModel, Response, Tri, Vec3Bits};

verus! {

/// Bit pattern of the `f32` each eye component starts at (-1.0); the
/// startup camera sits at (-1, -1, -1) and looks at the origin.
pub const STARTUP_EYE_BITS: u32 = 0xBF80_0000;

/// Every corner of every face is an index into the vertex list. The codec
/// does not enforce this; it is the mesh producer's obligation.
pub open spec fn faces_in_bounds(verts: Seq<Vec3Bits>, faces: Seq<Tri>) -> bool {
    forall|k: int|
        0 <= k < faces.len() ==> {
            &&& 0 <= #[trigger] faces[k].a < verts.len()
            &&& 0 <= faces[k].b < verts.len()
            &&& 0 <= faces[k].c < verts.len()
        }
}

/// The vertex list a mesh unrolls to for the renderer: one vertex per face
/// corner, walking the flattened index list backwards.
pub open spec fn spec_gather(verts: Seq<Vec3Bits>, faces: Seq<Tri>) -> Seq<Vec3Bits>
    recommends
        faces_in_bounds(verts, faces),
    decreases faces.len(),
{
    if faces.len() == 0 {
        Seq::empty()
    } else {
        let t = faces.last();
        seq![verts[t.c as int], verts[t.b as int], verts[t.a as int]] + spec_gather(
            verts,
            faces.drop_last(),
        )
    }
}

/// Unrolling a face list in two parts: the later faces come out first.
pub proof fn lemma_gather_concat(verts: Seq<Vec3Bits>, a: Seq<Tri>, b: Seq<Tri>)
    ensures
        spec_gather(verts, a + b) == spec_gather(verts, b) + spec_gather(verts, a),
    decreases b.len(),
{
    if b.len() == 0 {
        assert(a + b =~= a);
        assert(spec_gather(verts, b) + spec_gather(verts, a) =~= spec_gather(verts, a));
    } else {
        assert((a + b).drop_last() =~= a + b.drop_last());
        assert((a + b).last() == b.last());
        lemma_gather_concat(verts, a, b.drop_last());
        let t = b.last();
        assert(seq![verts[t.c as int], verts[t.b as int], verts[t.a as int]] + (spec_gather(
            verts,
            b.drop_last(),
        ) + spec_gather(verts, a)) =~= spec_gather(verts, b) + spec_gather(verts, a));
    }
}

/// Unrolls a face list into the renderer's vertex list, the flattened
/// indices walked backwards, each index replaced by its vertex.
pub fn gather_face_vertices(verts: &Vec<Vec3Bits>, faces: &Vec<Tri>) -> (out: Vec<Vec3Bits>)
    requires
        faces_in_bounds(verts@, faces@),
    ensures
        out@ == spec_gather(verts@, faces@),
        out@.len() == 3 * faces@.len(),
{
    let n = faces.len();
    let mut out: Vec<Vec3Bits> = Vec::new();
    let mut k: usize = n;
    while k > 0
        invariant
            k <= n,
            n == faces@.len(),
            faces_in_bounds(verts@, faces@),
            out@ == spec_gather(verts@, faces@.subrange(k as int, n as int)),
            out@.len() == 3 * (n - k),
        decreases k,
    {
        k = k - 1;
        let t = faces[k];
        proof {
            assert(0 <= faces@[k as int].a < verts@.len());
            assert(0 <= faces@[k as int].b < verts@.len());
            assert(0 <= faces@[k as int].c < verts@.len());
        }
        let ghost out0 = out@;
        out.push(verts[t.c as usize]);
        out.push(verts[t.b as usize]);
        out.push(verts[t.a as usize]);
        proof {
            let tail = faces@.subrange(k as int + 1, n as int);
            assert(faces@.subrange(k as int, n as int) =~= seq![faces@[k as int]] + tail);
            lemma_gather_concat(verts@, seq![faces@[k as int]], tail);
            assert(seq![faces@[k as int]].drop_last() =~= Seq::<Tri>::empty());
            assert(spec_gather(verts@, Seq::<Tri>::empty()) == Seq::<Vec3Bits>::empty());
            assert(spec_gather(verts@, seq![faces@[k as int]]) =~= seq![
                verts@[t.c as int],
                verts@[t.b as int],
                verts@[t.a as int],
            ]);
            assert(out@ =~= spec_gather(verts@, tail) + spec_gather(
                verts@,
                seq![faces@[k as int]],
            ));
        }
    }
    proof {
        assert(faces@.subrange(0, n as int) =~= faces@);
    }
    out
}

/// The camera state the update loop owns. Only copies of it ever cross to
/// the listener thread, inside replies.
pub struct ViewerState {
    pub view: CameraView,
}

/// What handling one dequeued message amounts to.
pub enum UpdateOutcome {
    /// Hand the renderer this unrolled vertex list; the renderer recenters
    /// the camera target on its centroid.
    MeshApplied { gathered: Vec<Vec3Bits> },
    /// The camera view was replaced by the one given.
    ViewApplied(CameraView),
    /// Put exactly this reply on the outbound queue.
    Replied(Response),
}

impl ViewerState {
    pub fn new(view: CameraView) -> (s: ViewerState)
        ensures
            s.view == view,
    {
        ViewerState { view }
    }

    /// The view a reply to a request carries.
    pub fn current_view(&self) -> (v: CameraView)
        ensures
            v == self.view,
    {
        self.view
    }

    /// Replaces the whole camera view.
    pub fn apply_view(&mut self, v: CameraView)
        ensures
            final(self).view == v,
    {
        self.view = v;
    }

    /// Moves the camera target only, as the renderer does after recentering
    /// on a fresh mesh; the eye stays where it was.
    pub fn set_look_target(&mut self, target: Vec3Bits)
        ensures
            final(self).view.look_at == target,
            final(self).view.position == old(self).view.position,
    {
        self.view = CameraView { position: self.view.position, look_at: target };
    }

    /// Handles one dequeued message. A view request is answered with the
    /// view held at this very moment — never an earlier or later one — and
    /// only a view request produces a reply.
    pub fn update_step(&mut self, m: &Message) -> (out: UpdateOutcome)
        requires
            m@ matches MessageModel::Mesh { verts, faces } ==> faces_in_bounds(verts, faces),
        ensures
            m.spec_requires_response() <==> out is Replied,
            m@ is RequestView ==> out == UpdateOutcome::Replied(
                Response::GetView(old(self).view),
            ) && *final(self) == *old(self),
            m@ matches MessageModel::SetView(v) ==> final(self).view == v && out
                == UpdateOutcome::ViewApplied(v),
            m@ matches MessageModel::Mesh { verts, faces } ==> *final(self) == *old(self) && (
            out matches UpdateOutcome::MeshApplied { gathered } && gathered@ == spec_gather(
                verts,
                faces,
            )),
    {
        match m {
            Message::Mesh { verts, faces } => {
                let gathered = gather_face_vertices(verts, faces);
                UpdateOutcome::MeshApplied { gathered }
            },
            Message::SetView(v) => {
                self.apply_view(*v);
                UpdateOutcome::ViewApplied(*v)
            },
            Message::RequestView => UpdateOutcome::Replied(Response::GetView(self.current_view())),
        }
    }
}

/// A fresh viewer, holding the camera the viewer process starts with: eye
/// at (-1, -1, -1), target at the origin, as `f32` bit patterns.
pub fn ssmv() -> (s: ViewerState)
    ensures
        s.view == (CameraView {
            position: (Vec3Bits {
                x: STARTUP_EYE_BITS,
                y: STARTUP_EYE_BITS,
                z: STARTUP_EYE_BITS,
            }),
            look_at: (Vec3Bits { x: 0, y: 0, z: 0 }),
        }),
{
    ViewerState::new(
        CameraView {
            position: Vec3Bits { x: STARTUP_EYE_BITS, y: STARTUP_EYE_BITS, z: STARTUP_EYE_BITS },
            look_at: Vec3Bits { x: 0, y: 0, z: 0 },
        },
    )
}

/// One connection as the listener thread sees it: either free to read the
/// next frame, or holding the read loop until the update loop's reply has
/// been written back. Holding the loop is what keeps at most one request
/// in flight per connection.
pub struct ListenerConn {
    pub awaiting_reply: bool,
}

/// What the listener must do with one received payload.
pub enum ListenerStep {
    /// Push the message onto the inbound queue; if `await_reply`, block on
    /// the outbound queue and write the reply frame before reading again.
    Deliver { msg: Message, await_reply: bool },
    /// The payload decodes to no known variant: abandon this connection and
    /// return to accepting new ones.
    Abandon(WireError),
}

impl ListenerConn {
    pub fn new() -> (c: ListenerConn)
        ensures
            !c.awaiting_reply,
    {
        ListenerConn { awaiting_reply: false }
    }

    /// Decides on one received payload. Only callable while no reply is
    /// owed: the read loop must not run ahead of a pending request.
    pub fn on_payload(&mut self, payload: &[u8]) -> (step: ListenerStep)
        requires
            !old(self).awaiting_reply,
        ensures
            match step {
                ListenerStep::Deliver { msg, await_reply } => {
                    &&& spec_decode_message(payload@) == Some(msg@)
                    &&& await_reply == msg.spec_requires_response()
                    &&& final(self).awaiting_reply == await_reply
                },
                ListenerStep::Abandon(e) => {
                    &&& spec_decode_message(payload@) is None
                    &&& e == WireError::MalformedPayload
                    &&& !final(self).awaiting_reply
                },
            },
    {
        match decode_payload(payload) {
            Ok(msg) => {
                let await_reply = msg.requires_response();
                self.awaiting_reply = await_reply;
                ListenerStep::Deliver { msg, await_reply }
            },
            Err(e) => ListenerStep::Abandon(e),
        }
    }

    /// Takes the update loop's reply, clears the hold, and hands back the
    /// frame to write to the socket before the next read.
    pub fn on_reply(&mut self, r: &Response) -> (out: Vec<u8>)
        requires
            old(self).awaiting_reply,
        ensures
            !final(self).awaiting_reply,
            out@ == spec_frame(spec_encode_response(*r)),
    {
        self.awaiting_reply = false;
        encode_response(r)
    }
}

} // verus!
