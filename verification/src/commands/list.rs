//! Listing of one remote directory: the request, and the stream of entries
//! that answers it.
use vstd::prelude::*;
use vstd::string::*;
use vstd::utf8::*;
use vstd::slice::slice_subrange;
use crate::commands::{send_sync_command, sync_request};
use crate::result::dent::{
    dent_record, dent_reply, lemma_dent_failure, lemma_dent_roundtrip, DentView, SyncDent,
};
use crate::utils::{
    check_sync_path, fail_record, short_record, short_record_error, sync_path_fault,
};
use crate::wire::{lemma_u32_at, u32_le, Frame, Reply, ID_DONE};
use crate::AdbSyncModeCommand;
use crate::AdbTransportError;
use crate::ErrorView;

verus! {

/// Frames the request for the entries of the directory `path`.
pub fn list_request(path: &str) -> (r: Result<Vec<u8>, AdbTransportError>)
    ensures
        match r {
            Ok(out) => sync_path_fault(path.spec_bytes()) is None && out@ == sync_request(
                AdbSyncModeCommand::List,
                path.spec_bytes(),
            ),
            Err(e) => sync_path_fault(path.spec_bytes()) matches Some(fault) && e@
                == ErrorView::InvalidPath(fault),
        },
{
    match check_sync_path(path) {
        Err(e) => Err(e),
        Ok(_) => Ok(send_sync_command(AdbSyncModeCommand::List, path.as_bytes())),
    }
}

/// The entries as contracts speak of them.
pub open spec fn dent_views(entries: Seq<SyncDent>) -> Seq<DentView> {
    entries.map_values(|entry: SyncDent| entry@)
}

/// The entries that a complete reply stream lists, in the order in which
/// they come, up to the end-of-stream sentinel; or the first error.
///
/// Every entry is kept, those named `.` and `..` too.
pub open spec fn list_stream(s: Seq<u8>) -> Result<Seq<DentView>, ErrorView>
    decreases s.len(),
{
    match dent_reply(s) {
        Reply::Need(_) => Err(short_record("sync_dent"@)),
        Reply::End(_) => Ok(Seq::empty()),
        Reply::Failed(e) => Err(e),
        Reply::Item(entry, used) => if 0 < used <= s.len() {
            match list_stream(s.skip(used as int)) {
                Ok(later) => Ok(seq![entry] + later),
                Err(e) => Err(e),
            }
        } else {
            // a record is never empty, nor longer than the bytes it was read from
            Err(short_record("sync_dent"@))
        },
    }
}

/// Reads the entries out of a complete reply to a `LIST` request.
pub fn sync_list_(reply: &[u8]) -> (r: Result<Vec<SyncDent>, AdbTransportError>)
    ensures
        match r {
            Ok(entries) => list_stream(reply@) == Ok::<Seq<DentView>, ErrorView>(
                dent_views(entries@),
            ),
            Err(e) => list_stream(reply@) == Err::<Seq<DentView>, ErrorView>(e@),
        },
{
    let mut entries: Vec<SyncDent> = Vec::new();
    let mut at: usize = 0;
    assert(reply@.skip(0) =~= reply@);
    assert(dent_views(entries@) =~= Seq::<DentView>::empty());
    loop
        invariant
            at <= reply.len(),
            match list_stream(reply@.skip(at as int)) {
                Ok(later) => list_stream(reply@) == Ok::<Seq<DentView>, ErrorView>(
                    dent_views(entries@) + later,
                ),
                Err(e) => list_stream(reply@) == Err::<Seq<DentView>, ErrorView>(e),
            },
        decreases reply.len() - at,
    {
        let rest = slice_subrange(reply, at, reply.len());
        assert(rest@ =~= reply@.skip(at as int));
        match SyncDent::from_le_bytes_transport(rest) {
            Ok(Frame::Need(_)) => {
                return Err(short_record_error("sync_dent"));
            },
            Ok(Frame::End(_)) => {
                assert(dent_views(entries@) + Seq::<DentView>::empty() =~= dent_views(entries@));
                return Ok(entries);
            },
            Err(e) => {
                return Err(e);
            },
            Ok(Frame::Item(entry, used)) => {
                let ghost earlier = dent_views(entries@);
                let ghost item = entry@;
                entries.push(entry);
                proof {
                    assert(rest@.skip(used as int) =~= reply@.skip(at + used));
                    assert(dent_views(entries@) =~= earlier + seq![item]);
                    match list_stream(reply@.skip(at + used)) {
                        Ok(later) => {
                            assert(earlier + (seq![item] + later) =~= dent_views(entries@)
                                + later);
                        },
                        Err(_) => {},
                    }
                }
                at = at + used;
            },
        }
    }
}

/// The records of `entries`, one behind the other.
pub open spec fn dent_records(entries: Seq<DentView>) -> Seq<u8>
    decreases entries.len(),
{
    if entries.len() == 0 {
        Seq::empty()
    } else {
        dent_record(entries[0]) + dent_records(entries.skip(1))
    }
}

/// Every name of `entries` fits the length field of a record.
pub open spec fn names_fit(entries: Seq<DentView>) -> bool {
    forall|i: int|
        0 <= i < entries.len() ==> encode_utf8(#[trigger] entries[i].name).len() <= u32::MAX
}

/// A stream that opens with the records of `entries` lists them first, and
/// then goes on as the rest of the stream does.
#[verifier::rlimit(30)]
pub proof fn lemma_list_records(entries: Seq<DentView>, tail: Seq<u8>)
    requires
        names_fit(entries),
    ensures
        list_stream(dent_records(entries) + tail) == match list_stream(tail) {
            Ok(later) => Ok::<Seq<DentView>, ErrorView>(entries + later),
            Err(e) => Err::<Seq<DentView>, ErrorView>(e),
        },
    decreases entries.len(),
{
    if entries.len() == 0 {
        assert(dent_records(entries) + tail =~= tail);
        match list_stream(tail) {
            Ok(later) => {
                assert(entries + later =~= later);
            },
            Err(_) => {},
        }
    } else {
        let first = entries[0];
        let others = entries.skip(1);
        let behind = dent_records(others) + tail;
        let s = dent_records(entries) + tail;
        assert(s =~= dent_record(first) + behind);
        lemma_dent_roundtrip(first, behind);
        assert(names_fit(others)) by {
            assert forall|i: int| 0 <= i < others.len() implies encode_utf8(
                #[trigger] others[i].name,
            ).len() <= u32::MAX by {
                assert(others[i] == entries[i + 1]);
            }
        }
        lemma_list_records(others, tail);
        match list_stream(tail) {
            Ok(later) => {
                assert(seq![first] + (others + later) =~= entries + later);
            },
            Err(_) => {},
        }
    }
}

/// A listing that the device writes record by record and closes with the
/// sentinel is read back entry for entry: as many entries, the same
/// fields, the same order, none left out, whatever follows the sentinel.
pub proof fn lemma_list_roundtrip(entries: Seq<DentView>, rest: Seq<u8>)
    requires
        names_fit(entries),
    ensures
        list_stream(dent_records(entries) + u32_le(ID_DONE) + rest) == Ok::<
            Seq<DentView>,
            ErrorView,
        >(entries),
{
    let tail = u32_le(ID_DONE) + rest;
    lemma_u32_at(ID_DONE, rest);
    assert(dent_reply(tail) == Reply::<DentView>::End(4));
    lemma_list_records(entries, tail);
    assert(dent_records(entries) + u32_le(ID_DONE) + rest =~= dent_records(entries) + tail);
    assert(entries + Seq::<DentView>::empty() =~= entries);
}

/// A failure record that follows any number of entries ends the listing
/// with the server's message, and nothing after it is read.
pub proof fn lemma_list_failure(entries: Seq<DentView>, message: Seq<char>, rest: Seq<u8>)
    requires
        names_fit(entries),
        encode_utf8(message).len() <= u32::MAX,
    ensures
        list_stream(dent_records(entries) + fail_record(message) + rest) == Err::<
            Seq<DentView>,
            ErrorView,
        >(ErrorView::AdbError(message)),
{
    let tail = fail_record(message) + rest;
    lemma_dent_failure(message, rest);
    lemma_list_records(entries, tail);
    assert(dent_records(entries) + fail_record(message) + rest =~= dent_records(entries) + tail);
}

} // verus!
