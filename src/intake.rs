//! The on-demand notification of a single token.
use vstd::prelude::*;
use vstd::utf8::encode_utf8;
use crate::gateway::{
    classify, outcome_of, GatewayReply, Outcome, STATUS_GONE, STATUS_OK, STATUS_SERVER_ERROR,
};
use crate::store::StoreAction;

verus! {

/// The HTTP status answered for an outcome: 200 on delivery, 410 for an
/// invalid token, 500 for any failure that may pass.
pub open spec fn notify_status(o: Outcome) -> u16 {
    match o {
        Outcome::Delivered => STATUS_OK,
        Outcome::Invalid(_) => STATUS_GONE,
        _ => STATUS_SERVER_ERROR,
    }
}

/// The answer to an on-demand notification, and what it does to the store.
#[derive(Debug, Clone, PartialEq, Eq)]
pub struct NotifyReply {
    pub outcome: Outcome,
    pub status: u16,
    pub action: StoreAction,
}

/// Settles an on-demand notification of `token` (as received, marker
/// included) from the gateway's reply: an invalid token is removed under the
/// key it is stored with and answered with 410, so that the caller stops
/// retrying it.
pub fn notify_verdict(token: &str, reply: GatewayReply) -> (r: NotifyReply)
    ensures
        r.outcome == outcome_of(reply),
        r.status == notify_status(outcome_of(reply)),
        r.action.removed() == (if outcome_of(reply).prunes() {
            Some(encode_utf8(token@))
        } else {
            None
        }),
{
    let outcome = classify(reply);
    let (status, action) = match &outcome {
        Outcome::Delivered => (STATUS_OK, StoreAction::Keep),
        Outcome::Invalid(_) => (STATUS_GONE, StoreAction::Remove(token.as_bytes_vec())),
        _ => (STATUS_SERVER_ERROR, StoreAction::Keep),
    };
    NotifyReply { outcome, status, action }
}

} // verus!
