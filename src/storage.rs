use vstd::prelude::*;

use crate::records::{SessionToken, TransitionToken, Ucwid};

verus! {

/// The storage that backs a token table: a store of owner secrets, which
/// hands back a verifier for each, and a store of text values by token.
///
/// Nothing is assumed of what an implementation returns: the table states
/// what holds whatever comes back.
pub trait DB: Sync + Send {
    /// Stores the owner secret of a session and returns its verifier.
    fn set_session_key_value(&self, session_token: &SessionToken, ownership_key: Ucwid) -> crate::records::Hash;

    /// Deletes the owner secret of a session.
    fn del_session_key_value(&self, session_token: &SessionToken) -> bool;

    /// Stores a value under a token.
    fn set_key_value(&self, token: &TransitionToken, value: &str);

    /// The value stored under a token, if any.
    fn get_key_value(&self, token: &TransitionToken) -> Option<String>;

    /// Deletes the value stored under a token.
    fn del_key_value(&self, token: &TransitionToken);

    /// Whether `ownership_key` matches the verifier.
    fn check_hash(&self, hh_unidentified: &str, ownership_key: Ucwid) -> bool;
}

} // verus!
