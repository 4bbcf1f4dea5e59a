//! The token store as a set of keys, the writes the library asks of it, and
//! the decoding of the keys read back from it.
use vstd::prelude::*;
use vstd::utf8::{decode_utf8, encode_utf8, valid_utf8};

verus! {

/// The value stored under every registered key.
pub const REGISTERED_MARKER: u8 = 1;

/// The store after `key` is registered: inserting is idempotent.
pub open spec fn after_register(s: Set<Seq<u8>>, key: Seq<u8>) -> Set<Seq<u8>> {
    s.insert(key)
}

/// The store after one store action: `None` leaves it as it is, `Some(k)`
/// removes `k`, whether it was there or not.
pub open spec fn after_action(s: Set<Seq<u8>>, removed: Option<Seq<u8>>) -> Set<Seq<u8>> {
    match removed {
        Some(k) => s.remove(k),
        None => s,
    }
}

/// The store after a sequence of store actions, applied in order.
pub open spec fn after_actions(s: Set<Seq<u8>>, acts: Seq<Option<Seq<u8>>>) -> Set<Seq<u8>>
    decreases acts.len(),
{
    if acts.len() == 0 {
        s
    } else {
        after_action(after_actions(s, acts.drop_last()), acts.last())
    }
}

/// Registering the same token twice leaves the store as registering it once:
/// the token's key is present, as exactly one entry.
pub proof fn lemma_register_idempotent(s: Set<Seq<u8>>, token: Seq<char>)
    requires
        s.finite(),
    ensures
        after_register(after_register(s, encode_utf8(token)), encode_utf8(token))
            == after_register(s, encode_utf8(token)),
        after_register(s, encode_utf8(token)).contains(encode_utf8(token)),
        after_register(s, encode_utf8(token)).len() == (if s.contains(encode_utf8(token)) {
            s.len()
        } else {
            s.len() + 1
        }),
{
    let k = encode_utf8(token);
    assert(s.insert(k).insert(k) =~= s.insert(k));
    if s.contains(k) {
        assert(s.insert(k) =~= s);
    }
}

/// A write the caller is to make on the store.
#[derive(Debug, Clone, PartialEq, Eq)]
pub enum StoreAction {
    /// Leave the store as it is.
    Keep,
    /// Remove this key.
    Remove(Vec<u8>),
}

impl StoreAction {
    /// The key this action removes, if any.
    pub open spec fn removed(&self) -> Option<Seq<u8>> {
        match self {
            StoreAction::Keep => None,
            StoreAction::Remove(k) => Some(k@),
        }
    }
}

/// A store entry to be written: the token's bytes as key, the marker as value.
#[derive(Debug, Clone, PartialEq, Eq)]
pub struct Entry {
    pub key: Vec<u8>,
    pub marker: Vec<u8>,
}

/// Why a registration was refused.
#[derive(Debug, Clone, Copy, PartialEq, Eq, Structural)]
pub enum RegisterError {
    /// No entry may have an empty key.
    EmptyToken,
}

impl RegisterError {
    /// The HTTP status with which the refusal is answered.
    pub fn status(&self) -> (r: u16)
        ensures
            r == 400,
    {
        400
    }
}

/// Validates a token for registration and gives the entry to write for it.
pub fn registration(token: &str) -> (r: Result<Entry, RegisterError>)
    ensures
        r is Err <==> token@.len() == 0,
        r is Ok ==> r->Ok_0.key@ == encode_utf8(token@) && r->Ok_0.marker@ == seq![
            REGISTERED_MARKER,
        ],
{
    if token.is_empty() {
        return Err(RegisterError::EmptyToken);
    }
    let key = token.as_bytes_vec();
    let marker = vec![REGISTERED_MARKER];
    assert(marker@ =~= seq![REGISTERED_MARKER]);
    Ok(Entry { key, marker })
}

/// Relies on std's `str::from_utf8`: it succeeds exactly when the bytes are
/// valid UTF-8, and then holds the characters they encode.
#[verifier::external_body]
pub(crate) fn decode_key(bytes: &[u8]) -> (r: Option<&str>)
    ensures
        r is Some <==> valid_utf8(bytes@),
        r is Some ==> r->Some_0@ == decode_utf8(bytes@),
{
    std::str::from_utf8(bytes).ok()
}

} // verus!
