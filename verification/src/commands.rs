//! The exchanges of the protocol, one module each: what is written, and what
//! the bytes that come back mean.
use vstd::prelude::*;
use crate::wire::{u32_le, u32_to_le};
use crate::AdbSyncModeCommand;

pub mod devices;
pub mod list;
pub mod pull;
pub mod push;
pub mod shell;
pub mod stat;

verus! {

/// A sync request: the tag, the length of the path, the path.
pub open spec fn sync_request(command: AdbSyncModeCommand, path: Seq<u8>) -> Seq<u8> {
    u32_le(command.spec_id()) + u32_le(path.len() as u32) + path
}

/// Frames a sync request for the wire.
pub(crate) fn send_sync_command(command: AdbSyncModeCommand, path: &[u8]) -> (out: Vec<u8>)
    requires
        path.len() <= u32::MAX,
    ensures
        out@ == sync_request(command, path@),
{
    let mut out = command.into();
    let mut length = u32_to_le(path.len() as u32);
    out.append(&mut length);
    out.extend_from_slice(path);
    out
}

} // verus!
