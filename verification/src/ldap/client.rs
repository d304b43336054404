//! What an LDAP client decides: the message IDs it uses, the messages it sends, and what
//! it makes of the replies.
use vstd::prelude::*;
use crate::error::{ProtoError, ProtoResult};
use super::backend::{result_of, ResponseKind};
use super::encode::message_bytes;
use super::model::{
    Control, EntryModel, LdapMessage, LdapResult, LdapResultModel, MessageModel, OpModel, ProtocolOp,
    SearchResultEntry,
};

verus! {

/// The ID after `id`, wrapping from the largest to the smallest.
pub open spec fn next_message_id(id: i32) -> i32 {
    if id == i32::MAX { i32::MIN } else { (id + 1) as i32 }
}

/// A client's message counter: the ID its next request carries.
pub struct LdapClientState {
    pub message_id: i32,
}

impl LdapClientState {
    /// A client whose first request carries ID 1.
    pub fn new() -> (s: LdapClientState)
        ensures
            s.message_id == 1,
    {
        LdapClientState { message_id: 1 }
    }

    /// The ID of the next request; the counter moves on.
    pub fn next_id(&mut self) -> (id: i32)
        ensures
            id == old(self).message_id,
            final(self).message_id == next_message_id(old(self).message_id),
    {
        let id = self.message_id;
        self.message_id = if id == i32::MAX { i32::MIN } else { id + 1 };
        id
    }

    /// The request carrying `op` under the next ID, encoded, and that ID.
    pub fn request(&mut self, op: ProtocolOp) -> (r: (i32, Vec<u8>))
        ensures
            r.0 == old(self).message_id,
            final(self).message_id == next_message_id(old(self).message_id),
            r.1@ == message_bytes(MessageModel { message_id: r.0, op: op@, controls: Seq::empty() }),
    {
        let message_id = self.next_id();
        let controls: Vec<Control> = Vec::new();
        let msg = LdapMessage { message_id, op, controls };
        assert(msg@.controls =~= Seq::empty());
        let bytes = match msg.encode() {
            Ok(b) => b,
            Err(_) => Vec::new(),
        };
        (message_id, bytes)
    }
}

/// What a reply to request `id` of kind `k` gives: its result when it carries that ID and
/// the response of that kind; an error otherwise.
pub open spec fn expected_result(id: i32, k: ResponseKind, resp: MessageModel) -> Result<LdapResultModel, ProtoError> {
    if resp.message_id != id {
        Err(ProtoError::Message("unexpected message id"))
    } else {
        match (k, resp.op) {
            (ResponseKind::Bind, OpModel::BindResponse(b)) => Ok(b.result),
            (ResponseKind::Add, OpModel::AddResponse(r)) => Ok(r),
            (ResponseKind::Modify, OpModel::ModifyResponse(r)) => Ok(r),
            (ResponseKind::Delete, OpModel::DelResponse(r)) => Ok(r),
            (ResponseKind::ModifyDn, OpModel::ModifyDnResponse(r)) => Ok(r),
            (ResponseKind::Compare, OpModel::CompareResponse(r)) => Ok(r),
            _ => Err(ProtoError::Parse("unexpected response")),
        }
    }
}

/// Reads the reply to request `id` of kind `k`.
pub fn expect_result(id: i32, k: ResponseKind, resp: LdapMessage) -> (r: ProtoResult<LdapResult>)
    ensures
        result_of(r) == expected_result(id, k, resp@),
{
    if resp.message_id != id {
        return Err(ProtoError::Message("unexpected message id"));
    }
    match (k, resp.op) {
        (ResponseKind::Bind, ProtocolOp::BindResponse(b)) => Ok(b.result),
        (ResponseKind::Add, ProtocolOp::AddResponse(r)) => Ok(r),
        (ResponseKind::Modify, ProtocolOp::ModifyResponse(r)) => Ok(r),
        (ResponseKind::Delete, ProtocolOp::DelResponse(r)) => Ok(r),
        (ResponseKind::ModifyDn, ProtocolOp::ModifyDnResponse(r)) => Ok(r),
        (ResponseKind::Compare, ProtocolOp::CompareResponse(r)) => Ok(r),
        _ => Err(ProtoError::Parse("unexpected response")),
    }
}

/// What one reply does to a search `id` in progress that has collected `entries`: replies to
/// other requests and references are passed over, an entry is collected, the done message
/// ends the search with its result, and any other reply is an error.
pub open spec fn search_step_spec(id: i32, entries: Seq<EntryModel>, resp: MessageModel) -> Result<
    (Seq<EntryModel>, Option<LdapResultModel>),
    ProtoError,
> {
    if resp.message_id != id {
        Ok((entries, None))
    } else {
        match resp.op {
            OpModel::SearchResultEntry(e) => Ok((entries.push(e), None)),
            OpModel::SearchResultDone(r) => Ok((entries, Some(r))),
            OpModel::SearchResultReference(_) => Ok((entries, None)),
            _ => Err(ProtoError::Parse("unexpected response")),
        }
    }
}

/// Takes one reply of search `id`: `Some` with the result when the search is done.
pub fn search_step(id: i32, entries: &mut Vec<SearchResultEntry>, resp: LdapMessage) -> (r: ProtoResult<
    Option<LdapResult>,
>)
    ensures
        match search_step_spec(id, old(entries)@.map_values(|e: SearchResultEntry| e@), resp@) {
            Ok((es, done)) => final(entries)@.map_values(|e: SearchResultEntry| e@) == es && match r {
                Ok(Some(res)) => done == Some(res@),
                Ok(None) => done is None,
                Err(_) => false,
            },
            Err(e) => r == Err::<Option<LdapResult>, ProtoError>(e) && final(entries)@ == old(entries)@,
        },
{
    if resp.message_id != id {
        return Ok(None);
    }
    match resp.op {
        ProtocolOp::SearchResultEntry(e) => {
            let ghost before = entries@.map_values(|x: SearchResultEntry| x@);
            let ghost ev = e@;
            entries.push(e);
            assert(entries@.map_values(|x: SearchResultEntry| x@) =~= before.push(ev));
            Ok(None)
        },
        ProtocolOp::SearchResultDone(r) => Ok(Some(r)),
        ProtocolOp::SearchResultReference(_) => Ok(None),
        _ => Err(ProtoError::Parse("unexpected response")),
    }
}

} // verus!
