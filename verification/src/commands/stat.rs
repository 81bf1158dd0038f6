//! Metadata of one remote path: the request, and the one record that
//! answers it.
use vstd::prelude::*;
use vstd::string::*;
use crate::commands::{send_sync_command, sync_request};
use crate::result::stat::{stat_reply, StatInfo};
use crate::utils::{check_sync_path, short_record, short_record_error, sync_path_fault};
use crate::wire::{Frame, Reply};
use crate::AdbSyncModeCommand;
use crate::AdbTransportError;
use crate::ErrorView;

verus! {

/// Frames the request for the metadata of `path`.
pub fn stat_request(path: &str) -> (r: Result<Vec<u8>, AdbTransportError>)
    ensures
        match r {
            Ok(out) => sync_path_fault(path.spec_bytes()) is None && out@ == sync_request(
                AdbSyncModeCommand::Stat,
                path.spec_bytes(),
            ),
            Err(e) => sync_path_fault(path.spec_bytes()) matches Some(fault) && e@
                == ErrorView::InvalidPath(fault),
        },
{
    match check_sync_path(path) {
        Err(e) => Err(e),
        Ok(_) => Ok(send_sync_command(AdbSyncModeCommand::Stat, path.as_bytes())),
    }
}

/// What a complete reply to a `STAT` request amounts to.
///
/// The end-of-stream sentinel in place of the record is an error here,
/// since no record came; so is a reply that stops inside the record.
pub open spec fn stat_stream(s: Seq<u8>) -> Result<StatInfo, ErrorView> {
    match stat_reply(s) {
        Reply::Need(_) => Err(short_record("sync_stat"@)),
        Reply::Item(info, _) => Ok(info),
        Reply::End(_) => Err(ErrorView::EOF),
        Reply::Failed(e) => Err(e),
    }
}

/// Reads the metadata out of a complete reply to a `STAT` request.
pub fn sync_stat_(reply: &[u8]) -> (r: Result<StatInfo, AdbTransportError>)
    ensures
        match r {
            Ok(info) => stat_stream(reply@) == Ok::<StatInfo, ErrorView>(info),
            Err(e) => stat_stream(reply@) == Err::<StatInfo, ErrorView>(e@),
        },
{
    match StatInfo::from_le_bytes_transport(reply) {
        Ok(Frame::Need(_)) => Err(short_record_error("sync_stat")),
        Ok(Frame::Item(info, _)) => Ok(info),
        Ok(Frame::End(_)) => Err(AdbTransportError::EOF),
        Err(e) => Err(e),
    }
}

} // verus!
