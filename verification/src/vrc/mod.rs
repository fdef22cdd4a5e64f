pub mod cam;
pub mod config;
pub mod datref;
pub mod ps;
pub mod session;

use vstd::prelude::*;

use crate::mapping::{NodeFieldKind, NodeKey, SlotFieldKind, SlotKey};
use crate::text::chars_of;

verus! {

broadcast use vstd::string::group_string_axioms;

/// The OSC path prefix under which an avatar reports its camera schema id.
pub const CAM_ID_PREFIX: &'static str = "/avatar/parameters/haptic/cam_id/";

/// The camera id of a `cam_id` path: the part after the prefix, when it is
/// not empty and holds no further `/`.
pub open spec fn spec_camera_id(path: Seq<char>, prefix: Seq<char>) -> Option<Seq<char>> {
    if path.len() >= prefix.len() && path.subrange(0, prefix.len() as int) == prefix {
        let id = path.subrange(prefix.len() as int, path.len() as int);
        if id.len() == 0 || id.contains('/') {
            None
        } else {
            Some(id)
        }
    } else {
        None
    }
}

/// Returns the camera id of a `cam_id` path. A path with no id, or with more
/// path parts after the id, returns `None`.
pub fn camera_id_from_path(path: &str) -> (res: Option<&str>)
    ensures
        match (res, spec_camera_id(path@, CAM_ID_PREFIX@)) {
            (Some(r), Some(id)) => r@ == id,
            (None, None) => true,
            _ => false,
        },
{
    let chars = chars_of(path);
    let prefix = chars_of(CAM_ID_PREFIX);
    let n = chars.len();
    let p = prefix.len();
    if n < p {
        return None;
    }
    let mut i: usize = 0;
    while i < p
        invariant
            i <= p <= n,
            n == chars@.len(),
            p == prefix@.len(),
            chars@ == path@,
            prefix@ == CAM_ID_PREFIX@,
            forall|k: int| 0 <= k < i ==> chars@[k] == prefix@[k],
        decreases p - i,
    {
        if chars[i] != prefix[i] {
            assert(path@.subrange(0, p as int)[i as int] != prefix@[i as int]);
            return None;
        }
        i += 1;
    }
    assert(path@.subrange(0, p as int) =~= prefix@);
    if p == n {
        assert(path@.subrange(p as int, n as int).len() == 0);
        return None;
    }
    let mut k: usize = p;
    while k < n
        invariant
            p <= k <= n,
            n == chars@.len(),
            chars@ == path@,
            p == CAM_ID_PREFIX@.len(),
            path@.subrange(0, p as int) == CAM_ID_PREFIX@,
            forall|j: int| p <= j < k ==> chars@[j] != '/',
        decreases n - k,
    {
        if chars[k] == '/' {
            assert(path@.subrange(p as int, n as int)[k - p] == '/');
            assert(path@.subrange(p as int, n as int).contains('/'));
            return None;
        }
        k += 1;
    }
    let ghost id = path@.subrange(p as int, n as int);
    assert(!id.contains('/')) by {
        if id.contains('/') {
            let j = choose|j: int| 0 <= j < id.len() && id[j] == '/';
            assert(chars@[p + j] == '/');
        }
    }
    Some(path.substring_char(p, n))
}

/// The map target that one watched address drives.
#[derive(Debug, Clone, Copy, PartialEq, Eq, Structural)]
pub enum AddrInfo {
    Slot(SlotKey, SlotFieldKind),
    Node(NodeKey, NodeFieldKind),
}

/// A full OSC path, with only the VRC Fury naming stripped.
#[derive(Debug, Clone, PartialEq, Eq, Hash)]
pub struct OscPath(pub String);

} // verus!
