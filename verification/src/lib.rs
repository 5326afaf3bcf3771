//! A mesh-viewer wire protocol: a length-prefixed binary framing format for
//! pushing meshes and camera views into a long-running viewer process and for
//! querying the viewer's camera state back over the same connection.
//!
//! The crate covers the protocol core: the message types and their binary
//! codec, the frame format, the server-side listener and update-loop
//! decisions, and the client-side connect-or-launch lifecycle. Rendering and
//! socket I/O are external collaborators; they exchange plain values with
//! this library.

pub mod client;
pub mod codec;
pub mod frame;
pub mod msg;
pub mod viewer;
