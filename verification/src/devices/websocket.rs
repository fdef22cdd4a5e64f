//! The connection logic of a websocket haptics device: the hello that must
//! open a connection, what later frames do, and the binary feedback frame.
//!
//! A device sends JSON text: a `hello` with its id, name and nodes first, then
//! `updateInfo` messages with new nodes. The server sends the motor levels as
//! little-endian `f32` values, one per node.
use vstd::prelude::*;

verus! {

/// A frame read from a device, as far as the connection logic tells frames
/// apart. The node lists themselves stay with the caller.
#[derive(Debug, Clone, Copy, PartialEq, Eq, Structural)]
pub enum WsFrame {
    /// A text frame holding a hello with this many nodes.
    Hello { node_count: usize },
    /// A text frame holding an info update with this many nodes.
    UpdateInfo { node_count: usize },
    /// A text frame that is no client message.
    BadText,
    /// A close frame.
    Close,
    /// A binary, ping or pong frame.
    Other,
    /// A read error.
    ReadError,
}

/// Why a connection was refused before it became a device.
#[derive(Debug, Clone, Copy, PartialEq, Eq, Structural)]
pub enum HelloError {
    /// No frame came within the hello timeout.
    Timeout,
    /// The stream ended before a frame came.
    ClosedBeforeHello,
    /// The first read failed.
    Read,
    /// The first frame was text but no client message.
    BadMessage,
    /// The first frame was not text.
    NotText,
    /// The first frame was an info update.
    NotHello,
}

/// What the first read gave: `None` for the timeout, `Some(None)` for the end
/// of the stream, `Some(Some(frame))` for a frame. A hello is accepted, and
/// its node count gives the length of the feedback buffer.
pub open spec fn spec_check_hello(first: Option<Option<WsFrame>>) -> Result<usize, HelloError> {
    match first {
        None => Err(HelloError::Timeout),
        Some(None) => Err(HelloError::ClosedBeforeHello),
        Some(Some(frame)) => match frame {
            WsFrame::Hello { node_count } => Ok(node_count),
            WsFrame::UpdateInfo { .. } => Err(HelloError::NotHello),
            WsFrame::BadText => Err(HelloError::BadMessage),
            WsFrame::ReadError => Err(HelloError::Read),
            WsFrame::Close => Err(HelloError::NotText),
            WsFrame::Other => Err(HelloError::NotText),
        },
    }
}

/// Checks the first read of a connection: only a hello opens a device.
pub fn check_hello(first: Option<Option<WsFrame>>) -> (res: Result<usize, HelloError>)
    ensures
        res == spec_check_hello(first),
{
    match first {
        None => Err(HelloError::Timeout),
        Some(None) => Err(HelloError::ClosedBeforeHello),
        Some(Some(frame)) => match frame {
            WsFrame::Hello { node_count } => Ok(node_count),
            WsFrame::UpdateInfo { .. } => Err(HelloError::NotHello),
            WsFrame::BadText => Err(HelloError::BadMessage),
            WsFrame::ReadError => Err(HelloError::Read),
            WsFrame::Close => Err(HelloError::NotText),
            WsFrame::Other => Err(HelloError::NotText),
        },
    }
}

/// What the reader does with a frame of an open connection.
#[derive(Debug, Clone, Copy, PartialEq, Eq, Structural)]
pub enum WsAction {
    /// Take the new nodes, resize the feedback buffer to this length when it
    /// is given, and mark the device info dirty.
    UpdateNodes { resize_to: Option<usize> },
    /// Nothing to do (a second hello, a bad message, a ping).
    Ignore,
    /// The connection is over: remove the device.
    Stop,
}

/// The reader's decision for one frame; `None` is the end of the stream.
pub open spec fn spec_ws_step(frame: Option<WsFrame>, buffer_len: usize) -> WsAction {
    match frame {
        None => WsAction::Stop,
        Some(WsFrame::UpdateInfo { node_count }) => WsAction::UpdateNodes {
            resize_to: if buffer_len != node_count {
                Some(node_count)
            } else {
                None
            },
        },
        Some(WsFrame::Close) => WsAction::Stop,
        Some(WsFrame::ReadError) => WsAction::Stop,
        Some(_) => WsAction::Ignore,
    }
}

/// Handles one frame of an open connection. The feedback buffer always ends up
/// as long as the device's node list.
pub fn ws_step(frame: Option<WsFrame>, buffer_len: usize) -> (res: WsAction)
    ensures
        res == spec_ws_step(frame, buffer_len),
{
    match frame {
        None => WsAction::Stop,
        Some(WsFrame::UpdateInfo { node_count }) => {
            let resize_to = if buffer_len != node_count {
                Some(node_count)
            } else {
                None
            };
            WsAction::UpdateNodes { resize_to }
        },
        Some(WsFrame::Close) => WsAction::Stop,
        Some(WsFrame::ReadError) => WsAction::Stop,
        Some(_) => WsAction::Ignore,
    }
}

/// After an info update the buffer length equals the new node count.
pub proof fn lemma_update_matches_nodes(buffer_len: usize, node_count: usize)
    ensures
        ({
            let a = spec_ws_step(Some(WsFrame::UpdateInfo { node_count }), buffer_len);
            &&& a is UpdateNodes
            &&& match a->resize_to {
                Some(n) => n == node_count,
                None => buffer_len == node_count,
            }
        }),
{
}

/// The little-endian bytes of a 32-bit word.
pub open spec fn le_bytes(w: u32) -> Seq<u8> {
    seq![(w % 256) as u8, ((w / 256) % 256) as u8, ((w / 65536) % 256) as u8, (w / 16777216) as u8]
}

/// The feedback frame: each level's `f32` bit pattern, little endian, in node
/// order.
pub open spec fn spec_feedback(levels: Seq<u32>) -> Seq<u8>
    decreases levels.len(),
{
    if levels.len() == 0 {
        Seq::empty()
    } else {
        spec_feedback(levels.drop_last()) + le_bytes(levels.last())
    }
}

/// Builds the feedback frame from the `f32` bit patterns of the levels.
pub fn encode_feedback(levels: &[u32]) -> (res: Vec<u8>)
    requires
        levels@.len() * 4 <= usize::MAX,
    ensures
        res@ == spec_feedback(levels@),
        res@.len() == levels@.len() * 4,
{
    let mut out: Vec<u8> = Vec::with_capacity(levels.len() * 4);
    let mut i: usize = 0;
    while i < levels.len()
        invariant
            i <= levels@.len(),
            out@ == spec_feedback(levels@.subrange(0, i as int)),
            out@.len() == i * 4,
        decreases levels@.len() - i,
    {
        let w = levels[i];
        assert(levels@.subrange(0, i + 1).drop_last() =~= levels@.subrange(0, i as int));
        out.push((w % 256) as u8);
        out.push(((w / 256) % 256) as u8);
        out.push(((w / 65536) % 256) as u8);
        out.push((w / 16777216) as u8);
        assert(out@ =~= spec_feedback(levels@.subrange(0, i + 1)));
        i += 1;
    }
    assert(levels@.subrange(0, i as int) =~= levels@);
    out
}

} // verus!
