use vstd::prelude::*;

use crate::error::StoreError;
use crate::jsonio::{classify_reply, reply_error_of, reply_wellformed};
use crate::model::{
    advanced_watermark, has_meta_key, links_after, meta_upsert, meta_value, snippets_after,
    tags_after, watermark_key, wf,
};
use crate::numfmt::{dec_chars, parse_watermark, parse_watermark_spec, watermark_string};
use crate::rows::SyncData;
use crate::store::Store;
use crate::wire::{build_sync_message, render_sync_payload, sync_frame_bytes, sync_payload_bytes};

verus! {

/// What the peer's one-line answer to a push amounts to: an
/// acknowledgement, a rejection carrying the peer's message, or a line
/// that is not well-formed JSON at all.
#[derive(Clone, Debug, PartialEq, Eq)]
pub enum ServerReply {
    Accepted,
    Rejected(String),
    Malformed,
}

/// Everything one sync attempt needs before the transport takes over: the
/// delta past the watermark, the framed message to send, and the watermark
/// to commit if the peer acknowledges.
pub struct SyncPlan {
    pub delta: SyncData,
    pub message: Vec<u8>,
    pub proposed_watermark: i64,
}

impl Store {
    /// The watermark persisted in the metadata table: the stored string,
    /// parsed. A store whose watermark value is not a canonical in-range
    /// decimal is corrupt, and reads as a storage failure.
    pub fn read_watermark(&self) -> (r: Result<i64, StoreError>)
        requires
            wf(self@),
        ensures
            match r {
                Ok(w) => parse_watermark_spec(meta_value(self@, watermark_key())) == Some(w as int),
                Err(e) => e == StoreError::StorageFailure && parse_watermark_spec(
                    meta_value(self@, watermark_key()),
                ) is None,
            },
    {
        match self.get_metadata_value("last_synced") {
            Ok(v) => match parse_watermark(v.as_str()) {
                Some(w) => Ok(w),
                None => Err(StoreError::StorageFailure),
            },
            Err(_) => {
                proof {
                    assert(has_meta_key(self@, watermark_key()));
                    assert(false);
                }
                Err(StoreError::StorageFailure)
            },
        }
    }

    /// Persist an acknowledged watermark into the metadata table, as its
    /// canonical decimal rendering. Only a committed sync calls this; a
    /// failed or rejected attempt leaves the store untouched, so a retry
    /// extracts the identical delta.
    pub fn commit_sync(&mut self, new_watermark: i64)
        requires
            wf(old(self)@),
        ensures
            final(self)@ == meta_upsert(
                old(self)@,
                watermark_key(),
                dec_chars(new_watermark as int),
            ),
            wf(final(self)@),
    {
        let v = watermark_string(new_watermark);
        self.set_metadata_value("last_synced", v.as_str());
    }
}

/// Assemble one sync attempt, gated by the runtime sync capability: with
/// sync disabled the attempt fails up front with `SyncingNotEnabled`;
/// otherwise the delta past the watermark is extracted, serialized and
/// framed, and the watermark to commit on success is proposed.
pub fn prepare_sync(store: &Store, sync_enabled: bool, token: &str, last_synced: i64) -> (r: Result<
    SyncPlan,
    StoreError,
>)
    requires
        wf(store@),
    ensures
        r is Ok <==> sync_enabled,
        !sync_enabled ==> r == Err::<SyncPlan, StoreError>(StoreError::SyncingNotEnabled),
        r matches Ok(p) ==> {
            &&& p.delta.0.deep_view() == snippets_after(store@.snippets, last_synced as int)
            &&& p.delta.1.deep_view() == tags_after(store@.tags, last_synced as int)
            &&& p.delta.2.deep_view() == links_after(store@.links, last_synced as int)
            &&& p.message@ == sync_frame_bytes(
                token@,
                last_synced as int,
                sync_payload_bytes(
                    snippets_after(store@.snippets, last_synced as int),
                    tags_after(store@.tags, last_synced as int),
                    links_after(store@.links, last_synced as int),
                ),
            )
            &&& p.proposed_watermark as int == advanced_watermark(store@, last_synced as int)
            &&& p.proposed_watermark >= last_synced
        },
{
    if !sync_enabled {
        return Err(StoreError::SyncingNotEnabled);
    }
    let (sn, tg, st) = store.get_sync_data(last_synced);
    let payload = render_sync_payload(&sn, &tg, &st);
    let message = build_sync_message(token, last_synced, &payload);
    let proposed_watermark = store.next_watermark(last_synced);
    Ok(SyncPlan { delta: (sn, tg, st), message, proposed_watermark })
}

/// Read the peer's one-line answer: a line that is not well-formed JSON
/// is malformed, a reply carrying a string `"error"` member is a
/// rejection with exactly that message, and anything else is an
/// acknowledgement. `sync_outcome` below says what each kind does to the
/// attempt.
pub fn interpret_response(line: &str) -> (r: ServerReply)
    ensures
        !reply_wellformed(line@) ==> r == ServerReply::Malformed,
        reply_wellformed(line@) && reply_error_of(line@) is None ==> r == ServerReply::Accepted,
        reply_wellformed(line@) && reply_error_of(line@) is Some ==> (r matches
            ServerReply::Rejected(m) && reply_error_of(line@) == Some(m@)),
{
    match classify_reply(line) {
        None => ServerReply::Malformed,
        Some(None) => ServerReply::Accepted,
        Some(Some(msg)) => ServerReply::Rejected(msg),
    }
}

/// The end of one sync attempt, for every possible reply: an
/// acknowledgement yields the watermark to persist; a rejection fails the
/// attempt with the peer's message; a malformed reply fails it as a
/// transport failure. In the failing cases the caller persists nothing,
/// so the watermark stays where it was.
pub fn sync_outcome(reply: ServerReply, proposed_watermark: i64) -> (r: Result<i64, StoreError>)
    ensures
        reply is Accepted ==> r == Ok::<i64, StoreError>(proposed_watermark),
        reply matches ServerReply::Rejected(m) ==> r == Err::<i64, StoreError>(
            StoreError::RemoteRejected(m),
        ),
        reply is Malformed ==> r == Err::<i64, StoreError>(StoreError::TransportFailure),
{
    match reply {
        ServerReply::Accepted => Ok(proposed_watermark),
        ServerReply::Rejected(m) => Err(StoreError::RemoteRejected(m)),
        ServerReply::Malformed => Err(StoreError::TransportFailure),
    }
}

/// The reply half of one sync attempt as a single decision: a line that
/// is not well-formed JSON fails the attempt as a transport failure, a
/// reply carrying a string `"error"` member fails it with exactly that
/// message, and any other reply commits the proposed watermark. The
/// failing cases return the error and nothing else; the watermark
/// advances only through the `Ok` the caller persists.
pub fn decide_sync(line: &str, proposed_watermark: i64) -> (r: Result<i64, StoreError>)
    ensures
        !reply_wellformed(line@) ==> r == Err::<i64, StoreError>(StoreError::TransportFailure),
        reply_wellformed(line@) && reply_error_of(line@) is None ==> r == Ok::<i64, StoreError>(
            proposed_watermark,
        ),
        reply_wellformed(line@) && reply_error_of(line@) is Some ==> (r matches Err(
            StoreError::RemoteRejected(m),
        ) && reply_error_of(line@) == Some(m@)),
{
    sync_outcome(interpret_response(line), proposed_watermark)
}

} // verus!
