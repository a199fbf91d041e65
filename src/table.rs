use vstd::prelude::*;

use serde_json::Value;

use crate::json::{
    json_text, read_bool_member, read_int_member, read_str_member, stored_session_record,
    stored_token_record, transfer_fields, transfer_record_of,
};
use crate::maker::{fits_prefix, TokenMaker};
use crate::records::{
    SessionTimingInfo, SessionToken, SessionTokenSets, SessionTokenTraits, StructOrString, Token,
    TokenSetsView, TokenTimingInfo, TransferView, TransferableTokenInfo, TransitionToken, Ucwid,
    GENERAL_DEFAULT_SESSION_TIMEOUT, SESSION_CHOP_INTERVAL,
};
use crate::storage::DB;
use crate::strmap::{StrMap, StrSet};

verus! {

/// One call that a table made on its storage, with what storage returned.
pub enum StorageCall {
    SetSessionKeyValue { session: Seq<char>, owner: Seq<char>, verifier: Seq<char> },
    DelSessionKeyValue { session: Seq<char> },
    SetKeyValue { key: Seq<char>, value: Seq<char> },
    GetKeyValue { key: Seq<char>, found: Option<Seq<char>> },
    DelKeyValue { key: Seq<char> },
    CheckHash { verifier: Seq<char>, owner: Seq<char>, answer: bool },
}

/// What a storage lookup found.
pub open spec fn found_of(c: StorageCall) -> Option<Seq<char>> {
    match c {
        StorageCall::GetKeyValue { found, .. } => found,
        _ => None,
    }
}

/// What a storage check answered.
pub open spec fn answer_of(c: StorageCall) -> bool {
    match c {
        StorageCall::CheckHash { answer, .. } => answer,
        _ => false,
    }
}

/// The view of an optional string.
pub open spec fn opt_view(x: Option<String>) -> Option<Seq<char>> {
    match x {
        Some(v) => Some(v@),
        None => None,
    }
}

/// The abstract state of a token table: every index as a map or set of
/// strings, the timeouts that new records start from, and the calls made on
/// storage so far, oldest first.
#[verifier::ext_equal]
pub struct TableModel {
    pub session_owner: Map<Seq<char>, Seq<char>>,
    pub owner_session: Map<Seq<char>, Seq<char>>,
    pub token_owner: Map<Seq<char>, Seq<char>>,
    pub token_session: Map<Seq<char>, Seq<char>>,
    pub verifiers: Map<Seq<char>, Seq<char>>,
    pub values: Map<Seq<char>, Seq<char>>,
    pub session_tokens: Map<Seq<char>, TokenSetsView>,
    pub detached: Set<Seq<char>>,
    pub orphaned: Set<Seq<char>>,
    pub session_timing: Map<Seq<char>, SessionTimingInfo>,
    pub transferable: Map<Seq<char>, TransferView>,
    pub token_timing: Map<Seq<char>, TokenTimingInfo>,
    pub general_session_timeout: i32,
    pub general_token_timeout: i32,
    pub calls: Seq<StorageCall>,
}

/// The sets of a session with `t` taken out of both.
pub open spec fn strip(v: TokenSetsView, t: Seq<char>) -> TokenSetsView {
    TokenSetsView { bounded: v.bounded.remove(t), carried: v.carried.remove(t) }
}

/// Whether a session's token sets hold `t`.
pub open spec fn holds(v: TokenSetsView, t: Seq<char>) -> bool {
    v.bounded.contains(t) || v.carried.contains(t)
}

/// The countdown that runs for a session: the one after detachment while it
/// is detached, else the main one.
pub open spec fn session_remaining(i: SessionTimingInfo) -> i32 {
    if i.is_detached {
        i.time_left_after_detachment
    } else {
        i.time_left
    }
}

/// Whether one sweep drives the session's running countdown to zero or below.
pub open spec fn session_expires(i: SessionTimingInfo) -> bool {
    session_remaining(i) <= SESSION_CHOP_INTERVAL
}

/// The session record after one sweep that it survives.
pub open spec fn session_chopped(i: SessionTimingInfo) -> SessionTimingInfo {
    if i.is_detached {
        SessionTimingInfo {
            time_left_after_detachment: (i.time_left_after_detachment - SESSION_CHOP_INTERVAL) as i32,
            ..i
        }
    } else {
        SessionTimingInfo { time_left: (i.time_left - SESSION_CHOP_INTERVAL) as i32, ..i }
    }
}

/// The countdown that runs for a token.
pub open spec fn token_remaining(i: TokenTimingInfo) -> i32 {
    if i.is_detached {
        i.time_left_after_detachment
    } else {
        i.time_left
    }
}

/// Whether one sweep drives the token's running countdown to zero or below.
pub open spec fn token_expires(i: TokenTimingInfo) -> bool {
    token_remaining(i) <= SESSION_CHOP_INTERVAL
}

/// The token record after one sweep that it survives.
pub open spec fn token_chopped(i: TokenTimingInfo) -> TokenTimingInfo {
    if i.is_detached {
        TokenTimingInfo {
            time_left_after_detachment: (i.time_left_after_detachment - SESSION_CHOP_INTERVAL) as i32,
            ..i
        }
    } else {
        TokenTimingInfo { time_left: (i.time_left - SESSION_CHOP_INTERVAL) as i32, ..i }
    }
}

impl TableModel {
    /// Token `t` has no value, countdown, transfer record, orphan mark, owner
    /// or session link.
    pub open spec fn token_gone(self, t: Seq<char>) -> bool {
        &&& !self.values.contains_key(t)
        &&& !self.token_timing.contains_key(t)
        &&& !self.transferable.contains_key(t)
        &&& !self.orphaned.contains(t)
        &&& !self.token_owner.contains_key(t)
        &&& !self.token_session.contains_key(t)
    }

    /// Session `s` has no countdown, detached mark, token sets, verifier or owner.
    pub open spec fn session_gone(self, s: Seq<char>) -> bool {
        &&& !self.session_timing.contains_key(s)
        &&& !self.detached.contains(s)
        &&& !self.session_tokens.contains_key(s)
        &&& !self.verifiers.contains_key(s)
        &&& !self.session_owner.contains_key(s)
    }

    /// A token in a session's sets is in exactly one of them, and the
    /// token-to-session index names that session; so no token is in two
    /// sessions at once.
    pub open spec fn exclusive(self) -> bool {
        forall|s: Seq<char>, t: Seq<char>|
            #![trigger self.session_tokens[s].bounded.contains(t)]
            #![trigger self.session_tokens[s].carried.contains(t)]
            self.session_tokens.contains_key(s) && holds(self.session_tokens[s], t) ==> {
                &&& self.token_session.contains_key(t)
                &&& self.token_session[t] == s
                &&& !(self.session_tokens[s].bounded.contains(t) && self.session_tokens[s].carried.contains(t))
            }
    }

    /// An owner's session is alive and names that owner back.
    pub open spec fn owners_consistent(self) -> bool {
        forall|o: Seq<char>| #[trigger]
            self.owner_session.contains_key(o) ==> {
                &&& self.session_tokens.contains_key(self.owner_session[o])
                &&& self.session_owner.contains_key(self.owner_session[o])
                &&& self.session_owner[self.owner_session[o]] == o
            }
    }

    pub open spec fn wf(self) -> bool {
        self.exclusive() && self.owners_consistent()
    }

    /// The session sets once `t` has left the session that the index gives it.
    pub open spec fn unlinked(self, t: Seq<char>) -> Map<Seq<char>, TokenSetsView> {
        if self.token_session.contains_key(t) && self.session_tokens.contains_key(
            self.token_session[t],
        ) {
            self.session_tokens.insert(
                self.token_session[t],
                strip(self.session_tokens[self.token_session[t]], t),
            )
        } else {
            self.session_tokens
        }
    }

    /// The state once token `t` is destroyed: out of its session, and gone
    /// from every token index.
    pub open spec fn without_token(self, t: Seq<char>) -> TableModel {
        TableModel {
            session_tokens: self.unlinked(t),
            values: self.values.remove(t),
            token_owner: self.token_owner.remove(t),
            orphaned: self.orphaned.remove(t),
            token_timing: self.token_timing.remove(t),
            transferable: self.transferable.remove(t),
            token_session: self.token_session.remove(t),
            calls: self.calls.push(StorageCall::DelKeyValue { key: t }),
            ..self
        }
    }

    /// The state once `t` is carried by the session of owner `o`, with the
    /// transfer record that `text` gives and `text` as its value.
    pub open spec fn installed(self, t: Seq<char>, o: Seq<char>, text: Seq<char>) -> TableModel {
        self.carrying(t, self.owner_session[o], o, transfer_record_of(text, o)).with_value(t, text)
    }

    /// Whether session `s` has a shared record.
    pub open spec fn shared_session(self, s: Seq<char>) -> bool {
        self.session_timing.contains_key(s) && self.session_timing[s].shared
    }

    /// Whether `added` are the storage calls that tearing down session `s`
    /// makes: a delete of its record where that is shared, a delete of each
    /// bounded token's value, and last a delete of its owner secret.
    pub open spec fn teardown_calls(self, s: Seq<char>, added: Seq<StorageCall>) -> bool {
        &&& added.len() > 0
        &&& added.last() == StorageCall::DelSessionKeyValue { session: s }
        &&& self.shared_session(s) ==> added[0] == StorageCall::DelKeyValue { key: s }
        &&& forall|i: int|
            0 <= i < added.len() - 1 ==> match #[trigger] added[i] {
                StorageCall::DelKeyValue { key } => (key == s && self.shared_session(s))
                    || self.bounded_of(s).contains(key),
                _ => false,
            }
        &&& forall|b: Seq<char>| #[trigger]
            self.bounded_of(s).contains(b) ==> added.contains(StorageCall::DelKeyValue { key: b })
    }

    /// The state once `c` is called on storage.
    pub open spec fn logged(self, c: StorageCall) -> TableModel {
        TableModel { calls: self.calls.push(c), ..self }
    }

    /// The state once session record `info` of `s` is mirrored to storage,
    /// where it is shared.
    pub open spec fn persisted(self, s: Seq<char>, info: SessionTimingInfo) -> TableModel {
        if info.shared {
            self.logged(StorageCall::SetKeyValue { key: s, value: info.json_text() })
        } else {
            self
        }
    }

    /// The transferable tokens that are for sale.
    pub open spec fn sellable(self) -> Set<Seq<char>> {
        Set::new(|t: Seq<char>| self.transferable.contains_key(t) && self.transferable[t].sellable)
    }

    /// The owner that the global owner index gives a token; empty when it has none.
    pub open spec fn owner_of(self, t: Seq<char>) -> Seq<char> {
        if self.token_owner.contains_key(t) {
            self.token_owner[t]
        } else {
            Seq::empty()
        }
    }

    /// The state once `t` has left its session and joined the bounded set
    /// (or, with `carried`, the carried set) of session `s`, owned by `o`.
    pub open spec fn bound(self, t: Seq<char>, s: Seq<char>, o: Seq<char>, carried: bool) -> TableModel {
        let sets = self.unlinked(t);
        let joined = if carried {
            TokenSetsView { bounded: sets[s].bounded, carried: sets[s].carried.insert(t) }
        } else {
            TokenSetsView { bounded: sets[s].bounded.insert(t), carried: sets[s].carried }
        };
        TableModel {
            session_tokens: sets.insert(s, joined),
            token_session: self.token_session.insert(t, s),
            token_owner: self.token_owner.insert(t, o),
            orphaned: self.orphaned.remove(t),
            ..self
        }
    }

    /// The owner-to-session index without the link of the owner of session
    /// `s`, where that link leads to `s`.
    pub open spec fn owner_links_without(self, s: Seq<char>) -> Map<Seq<char>, Seq<char>> {
        if self.session_owner.contains_key(s) && self.owner_session.contains_key(
            self.session_owner[s],
        ) && self.owner_session[self.session_owner[s]] == s {
            self.owner_session.remove(self.session_owner[s])
        } else {
            self.owner_session
        }
    }

    /// The state once session `s` is registered for owner `o` with verifier
    /// `h`: empty token sets, and a fresh countdown, shared or not.
    pub open spec fn with_session(
        self,
        s: Seq<char>,
        o: Seq<char>,
        h: Seq<char>,
        shared: bool,
    ) -> TableModel {
        TableModel {
            session_owner: self.session_owner.insert(s, o),
            owner_session: self.owner_links_without(s).insert(o, s),
            verifiers: self.verifiers.insert(s, h),
            session_tokens: self.session_tokens.insert(
                s,
                TokenSetsView { bounded: Set::empty(), carried: Set::empty() },
            ),
            detached: self.detached.remove(s),
            session_timing: self.session_timing.insert(
                s,
                SessionTimingInfo { shared, ..SessionTimingInfo::fresh(self.general_session_timeout) },
            ),
            ..self
        }
    }

    /// The bounded tokens of session `s`.
    pub open spec fn bounded_of(self, s: Seq<char>) -> Set<Seq<char>> {
        if self.session_tokens.contains_key(s) {
            self.session_tokens[s].bounded
        } else {
            Set::empty()
        }
    }

    /// The carried tokens of session `s`.
    pub open spec fn carried_of(self, s: Seq<char>) -> Set<Seq<char>> {
        if self.session_tokens.contains_key(s) {
            self.session_tokens[s].carried
        } else {
            Set::empty()
        }
    }

    /// The state once session `s` is destroyed: its indexes, verifier,
    /// countdown and sets are gone, its bounded tokens are destroyed, and its
    /// carried tokens are orphaned with everything else about them kept.
    pub open spec fn without_session(self, s: Seq<char>) -> TableModel {
        let b = self.bounded_of(s);
        let c = self.carried_of(s);
        TableModel {
            session_owner: self.session_owner.remove(s),
            owner_session: self.owner_links_without(s),
            verifiers: self.verifiers.remove(s),
            session_timing: self.session_timing.remove(s),
            detached: self.detached.remove(s),
            session_tokens: self.session_tokens.remove(s),
            orphaned: self.orphaned.union(c).difference(b),
            values: self.values.remove_keys(b),
            token_owner: self.token_owner.remove_keys(b),
            token_timing: self.token_timing.remove_keys(b),
            transferable: self.transferable.remove_keys(b),
            token_session: self.token_session.remove_keys(b),
            ..self
        }
    }

    /// The state once `t` is carried by session `s` for owner `o`, with
    /// transfer record `info`.
    pub open spec fn carrying(self, t: Seq<char>, s: Seq<char>, o: Seq<char>, info: TransferView) -> TableModel {
        TableModel { transferable: self.transferable.insert(t, info), ..self.bound(t, s, o, true) }
    }

    /// The transfer record that `t` has once `o` acquires it: the one it had,
    /// now owned by `o`, or a fresh one.
    pub open spec fn acquired_info(self, t: Seq<char>, o: Seq<char>) -> TransferView {
        if self.transferable.contains_key(t) {
            TransferView { owner: o, ..self.transferable[t] }
        } else {
            TransferView { sellable: false, price: 0, owner: o }
        }
    }

    /// The state once transferable token `t` passes from owner `y` to owner
    /// `r`. Nothing happens to a token that is not transferable, or when `y`
    /// has no session. Where `y`'s session carries the token (and it is not
    /// orphaned) its binding is destroyed; then, where `r` has a session, the
    /// token gets its old value back with a fresh countdown, its transfer
    /// record under `r`, and `r`'s session carries it.
    pub open spec fn transferred(self, t: Seq<char>, y: Seq<char>, r: Seq<char>) -> TableModel {
        if !self.transferable.contains_key(t) || !self.owner_session.contains_key(y) {
            self
        } else {
            let ys = self.owner_session[y];
            let text = if self.values.contains_key(t) {
                self.values[t]
            } else {
                Seq::empty()
            };
            let info = TransferView { owner: r, ..self.transferable[t] };
            let m1 = if !self.orphaned.contains(t) && self.carried_of(ys).contains(t) {
                self.without_token(t)
            } else {
                self
            };
            if m1.owner_session.contains_key(r) {
                m1.with_value(t, text).carrying(t, m1.owner_session[r], r, info)
            } else {
                m1
            }
        }
    }

    /// The state once `t` is stored with `value` and a fresh countdown.
    pub open spec fn with_value(self, t: Seq<char>, value: Seq<char>) -> TableModel {
        TableModel {
            values: self.values.insert(t, value),
            token_timing: self.token_timing.insert(
                t,
                TokenTimingInfo::fresh(self.general_token_timeout),
            ),
            calls: self.calls.push(StorageCall::SetKeyValue { key: t, value }),
            ..self
        }
    }
}

/// A token table held in memory, over a storage collaborator `D` and a token
/// factory `M`.
pub struct LocalSessionTokens<D: DB, M: TokenMaker> {
    db: D,
    session_to_owner: StrMap<String>,
    owner_to_session: StrMap<String>,
    token_to_owner: StrMap<String>,
    token_to_session: StrMap<String>,
    session_checking_tokens: StrMap<String>,
    token_to_information: StrMap<String>,
    sessions_to_their_tokens: StrMap<SessionTokenSets>,
    detached_sessions: StrSet,
    orphaned_tokens: StrSet,
    session_timing: StrMap<SessionTimingInfo>,
    all_transferable_tokens: StrMap<TransferableTokenInfo>,
    token_timing: StrMap<TokenTimingInfo>,
    token_creator: M,
    general_session_timeout: i32,
    general_token_timeout: i32,
    calls: Ghost<Seq<StorageCall>>,
}

impl<D: DB, M: TokenMaker> View for LocalSessionTokens<D, M> {
    type V = TableModel;

    closed spec fn view(&self) -> TableModel {
        TableModel {
            session_owner: self.session_to_owner@,
            owner_session: self.owner_to_session@,
            token_owner: self.token_to_owner@,
            token_session: self.token_to_session@,
            verifiers: self.session_checking_tokens@,
            values: self.token_to_information@,
            session_tokens: self.sessions_to_their_tokens@,
            detached: self.detached_sessions@,
            orphaned: self.orphaned_tokens@,
            session_timing: self.session_timing@,
            transferable: self.all_transferable_tokens@,
            token_timing: self.token_timing@,
            general_session_timeout: self.general_session_timeout,
            general_token_timeout: self.general_token_timeout,
            calls: self.calls@,
        }
    }
}

/// The operations of a token table.
pub trait TokenTables<D: DB, M: TokenMaker>: Sized {
    type Jsonable;

    spec fn well_formed(&self) -> bool;

    fn new(db: D, token_creator: M) -> (r: Self)
        ensures
            r.well_formed(),
    ;

    fn from_token(&self, token: TransitionToken) -> (r: Ucwid)
        requires
            self.well_formed(),
    ;

    fn token_is_transferable(&self, t_token: &TransitionToken) -> (r: bool)
        requires
            self.well_formed(),
    ;

    fn destroy_token(&mut self, token: &TransitionToken)
        requires
            old(self).well_formed(),
        ensures
            final(self).well_formed(),
    ;

    fn add_token(&mut self, token: &TransitionToken, value: StructOrString<Self::Jsonable>)
        requires
            old(self).well_formed(),
        ensures
            final(self).well_formed(),
    ;

    fn transition_token_is_active(&mut self, token: &TransitionToken) -> (r: Option<String>)
        requires
            old(self).well_formed(),
        ensures
            final(self).well_formed(),
    ;

    fn add_session(
        &mut self,
        session_token: &SessionToken,
        ownership_key: &Ucwid,
        o_t_token: Option<TransitionToken>,
        shared: Option<bool>,
    ) -> (r: Option<crate::records::Hash>)
        requires
            old(self).well_formed(),
        ensures
            final(self).well_formed(),
    ;

    fn active_session(&mut self, session_token: &SessionToken, ownership_key: &Ucwid) -> (r: Option<bool>)
        requires
            old(self).well_formed(),
        ensures
            final(self).well_formed(),
    ;

    fn destroy_session(&mut self, token: &TransitionToken)
        requires
            old(self).well_formed(),
        ensures
            final(self).well_formed(),
    ;

    fn allow_session_detach(&mut self, session_token: SessionToken)
        requires
            old(self).well_formed(),
        ensures
            final(self).well_formed(),
    ;

    fn detach_session(&mut self, session_token: SessionToken)
        requires
            old(self).well_formed(),
        ensures
            final(self).well_formed(),
    ;

    fn attach_session(&mut self, session_token: SessionToken)
        requires
            old(self).well_formed(),
        ensures
            final(self).well_formed(),
    ;

    fn decrement_timers(&mut self)
        requires
            old(self).well_formed(),
        ensures
            final(self).well_formed(),
    ;

    fn add_session_bounded_token(
        &mut self,
        t_token: &TransitionToken,
        value: StructOrString<Self::Jsonable>,
        ownership_key: &Ucwid,
    )
        requires
            old(self).well_formed(),
        ensures
            final(self).well_formed(),
    ;

    fn add_transferable_token(
        &mut self,
        t_token: &TransitionToken,
        value: StructOrString<Self::Jsonable>,
        ownership_key: &Ucwid,
    )
        requires
            old(self).well_formed(),
        ensures
            final(self).well_formed(),
    ;

    fn acquire_token(&mut self, t_token: &TransitionToken, session_token: &SessionToken, owner: &Ucwid) -> (r: bool)
        requires
            old(self).well_formed(),
        ensures
            final(self).well_formed(),
    ;

    fn transfer_token(&mut self, t_token: &TransitionToken, yielder_key: &Ucwid, receiver_key: &Ucwid)
        requires
            old(self).well_formed(),
        ensures
            final(self).well_formed(),
    ;

    fn set_token_creator(&mut self, token_creator: M)
        requires
            old(self).well_formed(),
        ensures
            final(self).well_formed(),
    ;

    fn create_token(&self, prefix: Option<String>) -> (r: Token)
        requires
            self.well_formed(),
    ;

    fn set_general_session_timeout(&mut self, timeout: i32)
        requires
            old(self).well_formed(),
        ensures
            final(self).well_formed(),
    ;

    fn set_session_timeout(&mut self, session_token: &SessionToken, timeout: i32)
        requires
            old(self).well_formed(),
        ensures
            final(self).well_formed(),
    ;

    fn get_session_timeout(&mut self, session_token: &SessionToken) -> (r: Option<i32>)
        requires
            old(self).well_formed(),
        ensures
            final(self).well_formed(),
    ;

    fn get_session_time_left(&mut self, session_token: &SessionToken) -> (r: Option<i32>)
        requires
            old(self).well_formed(),
        ensures
            final(self).well_formed(),
    ;

    fn set_general_token_timeout(&mut self, timeout: i32)
        requires
            old(self).well_formed(),
        ensures
            final(self).well_formed(),
    ;

    fn set_disownment_token_timeout(&mut self, t_token: &TransitionToken, timeout: i32)
        requires
            old(self).well_formed(),
        ensures
            final(self).well_formed(),
    ;

    fn set_token_timeout(&mut self, t_token: &TransitionToken, timeout: i32)
        requires
            old(self).well_formed(),
        ensures
            final(self).well_formed(),
    ;

    fn get_token_timeout(&mut self, t_token: &TransitionToken) -> (r: Option<i32>)
        requires
            old(self).well_formed(),
        ensures
            final(self).well_formed(),
    ;

    fn get_token_time_left(&mut self, t_token: &TransitionToken) -> (r: Option<i32>)
        requires
            old(self).well_formed(),
        ensures
            final(self).well_formed(),
    ;

    fn set_token_sellable(&mut self, t_token: &TransitionToken, amount: Option<i64>)
        requires
            old(self).well_formed(),
        ensures
            final(self).well_formed(),
    ;

    fn unset_token_sellable(&mut self, t_token: &TransitionToken)
        requires
            old(self).well_formed(),
        ensures
            final(self).well_formed(),
    ;

    fn reload_session_info(
        &mut self,
        session_token: &SessionToken,
        ownership_key: &Ucwid,
        owner_verifier: crate::records::Hash,
    ) -> (r: bool)
        requires
            old(self).well_formed(),
        ensures
            final(self).well_formed(),
    ;

    fn reload_token_info(&mut self, t_token: &TransitionToken)
        requires
            old(self).well_formed(),
        ensures
            final(self).well_formed(),
    ;

    fn list_transferable_tokens(&mut self, session_token: &SessionToken) -> (r: Vec<TransitionToken>)
        requires
            old(self).well_formed(),
        ensures
            final(self).well_formed(),
    ;

    fn list_sellable_tokens(&mut self) -> (r: Vec<TransitionToken>)
        requires
            old(self).well_formed(),
        ensures
            final(self).well_formed(),
    ;

    fn list_unassigned_tokens(&mut self) -> (r: Vec<TransitionToken>)
        requires
            old(self).well_formed(),
        ensures
            final(self).well_formed(),
    ;

    fn list_detached_sessions(&mut self) -> (r: Vec<SessionToken>)
        requires
            old(self).well_formed(),
        ensures
            final(self).well_formed(),
    ;
}

/// Well-formedness rests on the session sets and on the session, token and
/// owner links alone.
pub proof fn lemma_wf_frame(a: TableModel, b: TableModel)
    requires
        a.wf(),
        b.session_tokens == a.session_tokens,
        b.token_session == a.token_session,
        b.owner_session == a.owner_session,
        b.session_owner == a.session_owner,
    ensures
        b.wf(),
{
}

pub proof fn lemma_prefix_step(v: Seq<String>, i: int)
    requires
        0 <= i < v.len(),
    ensures
        prefix_set(v, i + 1) == prefix_set(v, i).insert(v[i]@),
{
    assert forall|x: Seq<char>| #[trigger] prefix_set(v, i + 1).contains(x) implies prefix_set(
        v,
        i,
    ).insert(v[i]@).contains(x) by {
        let j = choose|j: int| 0 <= j < i + 1 && #[trigger] v[j]@ == x;
        if j < i {
            assert(prefix_set(v, i).contains(x));
        }
    }
    assert forall|x: Seq<char>| #[trigger] prefix_set(v, i).insert(v[i]@).contains(x) implies prefix_set(
        v,
        i + 1,
    ).contains(x) by {
        if x != v[i]@ {
            let j = choose|j: int| 0 <= j < i && #[trigger] v[j]@ == x;
        }
    }
    assert(prefix_set(v, i + 1) =~= prefix_set(v, i).insert(v[i]@));
}

/// `r` lists the members of `set`, each once.
pub open spec fn lists(r: Seq<String>, set: Set<Seq<char>>) -> bool {
    &&& forall|i: int, j: int| 0 <= i < r.len() && 0 <= j < r.len() && i != j ==> #[trigger] r[i]@ != #[trigger] r[j]@
    &&& forall|i: int| 0 <= i < r.len() ==> set.contains(#[trigger] r[i]@)
    &&& forall|t: Seq<char>| #[trigger] set.contains(t) ==> exists|i: int| 0 <= i < r.len() && #[trigger] r[i]@ == t
}

/// Whether a storage call deletes something.
pub open spec fn is_delete(c: StorageCall) -> bool {
    match c {
        StorageCall::DelKeyValue { .. } => true,
        StorageCall::DelSessionKeyValue { .. } => true,
        _ => false,
    }
}

/// Whether `c` is among the calls from position `n` on.
pub open spec fn called_since(calls: Seq<StorageCall>, n: int, c: StorageCall) -> bool {
    exists|i: int| n <= i < calls.len() && calls[i] == c
}

/// Whether session `s` has a countdown that the next sweep ends.
pub open spec fn expiring(m: TableModel, s: Seq<char>) -> bool {
    m.session_timing.contains_key(s) && session_expires(m.session_timing[s])
}

/// Whether `t` is bounded to a session whose countdown the next sweep ends.
pub open spec fn bounded_by_expiring(m: TableModel, t: Seq<char>) -> bool {
    exists|s: Seq<char>| expiring(m, s) && #[trigger] m.bounded_of(s).contains(t)
}

/// What holds of `m` once the sessions that expire in `m0` are torn down.
pub open spec fn sessions_swept(m0: TableModel, m: TableModel) -> bool {
    let n = m0.calls.len() as int;
    &&& forall|s: Seq<char>, b: Seq<char>|
        expiring(m0, s) && #[trigger] m0.bounded_of(s).contains(b) ==> m.token_gone(b)
            && called_since(m.calls, n, StorageCall::DelKeyValue { key: b })
    &&& forall|s: Seq<char>, c: Seq<char>|
        expiring(m0, s) && #[trigger] m0.carried_of(s).contains(c) ==> m.orphaned.contains(c)
    &&& forall|s: Seq<char>| #[trigger]
        expiring(m0, s) ==> m.session_gone(s) && called_since(
            m.calls,
            n,
            StorageCall::DelSessionKeyValue { session: s },
        )
    &&& forall|t: Seq<char>|
        #[trigger] m0.token_timing.contains_key(t) && !bounded_by_expiring(m0, t)
            ==> m.token_timing.contains_key(t) && m.token_timing[t] == m0.token_timing[t]
    &&& forall|t: Seq<char>| #[trigger]
        m.token_timing.contains_key(t) ==> m0.token_timing.contains_key(t) && m.token_timing[t]
            == m0.token_timing[t]
    &&& n <= m.calls.len()
    &&& forall|x: int| 0 <= x < n ==> #[trigger] m.calls[x] == m0.calls[x]
    &&& forall|x: int| n <= x < m.calls.len() ==> is_delete(#[trigger] m.calls[x])
}

/// Deletes of the values of the first `k` entries of `v`, in order.
pub open spec fn deletes(v: Seq<String>, k: int) -> Seq<StorageCall> {
    Seq::new(k as nat, |j: int| StorageCall::DelKeyValue { key: v[j]@ })
}

/// The strings of the first `i` entries of `v`.
pub open spec fn prefix_set(v: Seq<String>, i: int) -> Set<Seq<char>> {
    Set::new(|x: Seq<char>| exists|j: int| 0 <= j < i && #[trigger] v[j]@ == x)
}

impl<D: DB, M: TokenMaker> LocalSessionTokens<D, M> {
    /// The token factory in use.
    pub closed spec fn creator(&self) -> M {
        self.token_creator
    }

    /// The model of a well-formed table is well formed.
    pub proof fn lemma_model_wf(&self)
        requires
            self.well_formed(),
        ensures
            self@.wf(),
    {
    }

    closed spec fn inv(&self) -> bool {
        &&& self.session_to_owner.wf()
        &&& self.owner_to_session.wf()
        &&& self.token_to_owner.wf()
        &&& self.token_to_session.wf()
        &&& self.session_checking_tokens.wf()
        &&& self.token_to_information.wf()
        &&& self.sessions_to_their_tokens.wf()
        &&& self.detached_sessions.wf()
        &&& self.orphaned_tokens.wf()
        &&& self.session_timing.wf()
        &&& self.all_transferable_tokens.wf()
        &&& self.token_timing.wf()
        &&& self@.wf()
    }

    /// Takes `t` out of the sets of the session that the index gives it.
    fn unlink(&mut self, t: &TransitionToken)
        requires
            old(self).inv(),
        ensures
            final(self).inv(),
            final(self)@ == (TableModel { session_tokens: old(self)@.unlinked(t@), ..old(self)@ }),
    {
        let ghost m0 = self@;
        match self.token_to_session.get(t) {
            Some(ts) => {
                let ts = ts.clone();
                match self.sessions_to_their_tokens.remove(&ts) {
                    Some(sets) => {
                        let mut sets = sets;
                        sets.session_bounded.remove(t);
                        sets.session_carries.remove(t);
                        self.sessions_to_their_tokens.insert(ts, sets);
                        assert(self@.session_tokens =~= m0.unlinked(t@));
                    },
                    None => {},
                }
            },
            None => {},
        }
        assert(self@ =~= TableModel { session_tokens: m0.unlinked(t@), ..m0 });
        assert(self@.exclusive()) by {
            assert forall|s: Seq<char>, u: Seq<char>|
                #![trigger self@.session_tokens[s].bounded.contains(u)]
                #![trigger self@.session_tokens[s].carried.contains(u)]
                self@.session_tokens.contains_key(s) && holds(self@.session_tokens[s], u) implies {
                &&& self@.token_session.contains_key(u)
                &&& self@.token_session[u] == s
                &&& !(self@.session_tokens[s].bounded.contains(u)
                    && self@.session_tokens[s].carried.contains(u))
            } by {
                assert(m0.session_tokens.contains_key(s));
                if m0.session_tokens[s].bounded.contains(u) {
                }
                if m0.session_tokens[s].carried.contains(u) {
                }
            }
        }
    }
}

impl<D: DB, M: TokenMaker> LocalSessionTokens<D, M> {
    /// Moves `t` out of its session into the bounded set (or, with
    /// `carried`, the carried set) of session `s`, owned by `o`.
    fn bind_token(&mut self, t: &TransitionToken, s: &SessionToken, o: &Ucwid, carried: bool)
        requires
            old(self).inv(),
            old(self)@.session_tokens.contains_key(s@),
        ensures
            final(self).inv(),
            final(self)@ == old(self)@.bound(t@, s@, o@, carried),
    {
        let ghost m0 = self@;
        self.unlink(t);
        let ghost m1 = self@;
        assert forall|x: Seq<char>| #[trigger]
            m1.session_tokens.contains_key(x) implies !holds(m1.session_tokens[x], t@) by {
            if m0.session_tokens[x].bounded.contains(t@) {
            }
            if m0.session_tokens[x].carried.contains(t@) {
            }
        }
        match self.sessions_to_their_tokens.remove(s) {
            Some(sets) => {
                let mut sets = sets;
                if carried {
                    sets.session_carries.insert(t.clone());
                } else {
                    sets.session_bounded.insert(t.clone());
                }
                self.sessions_to_their_tokens.insert(s.clone(), sets);
            },
            None => {},
        }
        self.token_to_session.insert(t.clone(), s.clone());
        self.token_to_owner.insert(t.clone(), o.clone());
        self.orphaned_tokens.remove(t);
        assert(self@ =~= m0.bound(t@, s@, o@, carried));
        assert(self@.exclusive()) by {
            assert forall|x: Seq<char>, u: Seq<char>|
                #![trigger self@.session_tokens[x].bounded.contains(u)]
                #![trigger self@.session_tokens[x].carried.contains(u)]
                self@.session_tokens.contains_key(x) && holds(self@.session_tokens[x], u) implies {
                &&& self@.token_session.contains_key(u)
                &&& self@.token_session[u] == x
                &&& !(self@.session_tokens[x].bounded.contains(u)
                    && self@.session_tokens[x].carried.contains(u))
            } by {
                assert(m1.session_tokens.contains_key(x));
                if u != t@ {
                    if m1.session_tokens[x].bounded.contains(u) {
                    }
                    if m1.session_tokens[x].carried.contains(u) {
                    }
                }
            }
        }
        assert(self@.owners_consistent()) by {
            assert forall|o2: Seq<char>| #[trigger] self@.owner_session.contains_key(o2) implies {
                &&& self@.session_tokens.contains_key(self@.owner_session[o2])
                &&& self@.session_owner.contains_key(self@.owner_session[o2])
                &&& self@.session_owner[self@.owner_session[o2]] == o2
            } by {
                assert(m1.owner_session.contains_key(o2));
            }
        }
    }

    /// Mirrors a session's countdowns to storage when its record is shared.
    fn persist_session_timing(&mut self, session_token: &SessionToken, info: &SessionTimingInfo)
        requires
            old(self).inv(),
        ensures
            final(self).inv(),
            final(self)@ == old(self)@.persisted(session_token@, *info),
    {
        if info.shared {
            let value = info.to_json();
            self.store_set_key_value(session_token, value.as_str());
        }
    }

    fn store_set_session_key_value(&mut self, session_token: &SessionToken, ownership_key: Ucwid) -> (r: crate::records::Hash)
        requires
            old(self).inv(),
        ensures
            final(self).inv(),
            final(self)@ == old(self)@.logged(
                StorageCall::SetSessionKeyValue { session: session_token@, owner: ownership_key@, verifier: r@ },
            ),
    {
        let ghost owner = ownership_key@;
        let r = self.db.set_session_key_value(session_token, ownership_key);
        self.calls = Ghost(self.calls@.push(
            StorageCall::SetSessionKeyValue { session: session_token@, owner, verifier: r@ },
        ));
        proof {
            lemma_wf_frame(old(self)@, self@);
        }
        r
    }

    fn store_del_session_key_value(&mut self, session_token: &SessionToken)
        requires
            old(self).inv(),
        ensures
            final(self).inv(),
            final(self)@ == old(self)@.logged(StorageCall::DelSessionKeyValue { session: session_token@ }),
    {
        self.db.del_session_key_value(session_token);
        self.calls = Ghost(self.calls@.push(StorageCall::DelSessionKeyValue { session: session_token@ }));
        proof {
            lemma_wf_frame(old(self)@, self@);
        }
    }

    fn store_set_key_value(&mut self, token: &TransitionToken, value: &str)
        requires
            old(self).inv(),
        ensures
            final(self).inv(),
            final(self)@ == old(self)@.logged(StorageCall::SetKeyValue { key: token@, value: value@ }),
    {
        self.db.set_key_value(token, value);
        self.calls = Ghost(self.calls@.push(StorageCall::SetKeyValue { key: token@, value: value@ }));
        proof {
            lemma_wf_frame(old(self)@, self@);
        }
    }

    fn store_get_key_value(&mut self, token: &TransitionToken) -> (r: Option<String>)
        requires
            old(self).inv(),
        ensures
            final(self).inv(),
            final(self)@ == old(self)@.logged(StorageCall::GetKeyValue { key: token@, found: opt_view(r) }),
    {
        let r = self.db.get_key_value(token);
        self.calls = Ghost(self.calls@.push(StorageCall::GetKeyValue { key: token@, found: opt_view(r) }));
        proof {
            lemma_wf_frame(old(self)@, self@);
        }
        r
    }

    fn store_del_key_value(&mut self, token: &TransitionToken)
        requires
            old(self).inv(),
        ensures
            final(self).inv(),
            final(self)@ == old(self)@.logged(StorageCall::DelKeyValue { key: token@ }),
    {
        self.db.del_key_value(token);
        self.calls = Ghost(self.calls@.push(StorageCall::DelKeyValue { key: token@ }));
        proof {
            lemma_wf_frame(old(self)@, self@);
        }
    }

    fn store_check_hash(&mut self, verifier: &String, ownership_key: Ucwid) -> (r: bool)
        requires
            old(self).inv(),
        ensures
            final(self).inv(),
            final(self)@ == old(self)@.logged(
                StorageCall::CheckHash { verifier: verifier@, owner: ownership_key@, answer: r },
            ),
    {
        let ghost owner = ownership_key@;
        let r = self.db.check_hash(verifier.as_str(), ownership_key);
        self.calls = Ghost(self.calls@.push(StorageCall::CheckHash { verifier: verifier@, owner, answer: r }));
        proof {
            lemma_wf_frame(old(self)@, self@);
        }
        r
    }

    /// Destroys session `s`: see `TableModel::without_session`.
    fn remove_session(&mut self, s: &SessionToken)
        requires
            old(self).inv(),
        ensures
            final(self).inv(),
            final(self)@ == (TableModel { calls: final(self)@.calls, ..old(self)@.without_session(s@) }),
            final(self)@.calls == old(self)@.calls + final(self)@.calls.skip(old(self)@.calls.len() as int),
            old(self)@.teardown_calls(s@, final(self)@.calls.skip(old(self)@.calls.len() as int)),
    {
        let ghost m00 = self@;
        let shared = match self.session_timing.get(s) {
            Some(time_info) => time_info.shared,
            None => false,
        };
        if shared {
            self.store_del_key_value(s);
        }
        let ghost m0 = self@;
        let ghost pre = m0.calls.skip(m00.calls.len() as int);
        assert(m0.calls =~= m00.calls + pre);
        self.detached_sessions.remove(s);
        match self.session_to_owner.get(s) {
            Some(owner) => {
                let owner = owner.clone();
                let linked = match self.owner_to_session.get(&owner) {
                    Some(os) => *os == *s,
                    None => false,
                };
                if linked {
                    self.owner_to_session.remove(&owner);
                }
            },
            None => {},
        }
        self.session_to_owner.remove(s);
        self.session_checking_tokens.remove(s);
        self.session_timing.remove(s);
        let ghost ma = self@;
        assert(ma.session_owner == m0.session_owner.remove(s@));
        assert(ma.owner_session == m0.owner_links_without(s@));
        assert(ma.wf()) by {
            assert forall|o2: Seq<char>| #[trigger] ma.owner_session.contains_key(o2) implies {
                &&& ma.session_tokens.contains_key(ma.owner_session[o2])
                &&& ma.session_owner.contains_key(ma.owner_session[o2])
                &&& ma.session_owner[ma.owner_session[o2]] == o2
            } by {
                assert(m0.owner_session.contains_key(o2));
            }
        }
        let c = self.carried_tokens(s);
        let mut i: usize = 0;
        while i < c.len()
            invariant
                self.inv(),
                ma.wf(),
                0 <= i <= c@.len(),
                forall|t: Seq<char>|
                    #[trigger] ma.carried_of(s@).contains(t) ==> exists|x: int|
                        0 <= x < c@.len() && #[trigger] c@[x]@ == t,
                self@ == (TableModel { orphaned: self@.orphaned, ..ma }),
                forall|x: Seq<char>|
                    #[trigger] self@.orphaned.contains(x) <==> (ma.orphaned.contains(x)
                        || prefix_set(c@, i as int).contains(x)),
            decreases c@.len() - i,
        {
            self.orphaned_tokens.insert(c[i].clone());
            assert forall|x: Seq<char>| #[trigger]
                prefix_set(c@, i + 1).contains(x) <==> (prefix_set(c@, i as int).contains(x)
                    || x == c@[i as int]@) by {
                if prefix_set(c@, i + 1).contains(x) {
                    let j = choose|j: int| 0 <= j < i + 1 && #[trigger] c@[j]@ == x;
                    if j < i {
                        assert(prefix_set(c@, i as int).contains(x));
                    }
                }
                if prefix_set(c@, i as int).contains(x) {
                    let j = choose|j: int| 0 <= j < i && #[trigger] c@[j]@ == x;
                    assert(prefix_set(c@, i + 1).contains(x));
                }
                if x == c@[i as int]@ {
                    assert(prefix_set(c@, i + 1).contains(x));
                }
            }
            assert(self@ =~= TableModel { orphaned: self@.orphaned, ..ma });
            assert(self@.wf()) by {
                assert(self@.session_tokens == ma.session_tokens);
                assert(self@.token_session == ma.token_session);
                assert(self@.owner_session == ma.owner_session);
                assert(self@.session_owner == ma.session_owner);
            }
            i = i + 1;
        }
        assert(prefix_set(c@, c@.len() as int) =~= ma.carried_of(s@)) by {
            assert forall|x: Seq<char>| #[trigger] ma.carried_of(s@).contains(x) implies
                prefix_set(c@, c@.len() as int).contains(x) by {
                let j = choose|j: int| 0 <= j < c@.len() && #[trigger] c@[j]@ == x;
            }
        }
        let ghost mb = self@;
        assert(mb.orphaned =~= ma.orphaned.union(ma.carried_of(s@)));
        let b = self.bounded_tokens(s);
        assert forall|x: int| 0 <= x < b@.len() implies self@.session_tokens.contains_key(s@)
            && self@.session_tokens[s@].bounded.contains(#[trigger] b@[x]@) by {
            assert(mb.bounded_of(s@).contains(b@[x]@));
        }
        let mut k: usize = 0;
        while k < b.len()
            invariant
                self.inv(),
                0 <= k <= b@.len(),
                forall|t: Seq<char>|
                    #[trigger] mb.bounded_of(s@).contains(t) ==> exists|x: int|
                        0 <= x < b@.len() && #[trigger] b@[x]@ == t,
                forall|x: int, y: int|
                    0 <= x < b@.len() && 0 <= y < b@.len() && x != y ==> #[trigger] b@[x]@
                        != #[trigger] b@[y]@,
                forall|x: int| 0 <= x < b@.len() ==> mb.bounded_of(s@).contains(#[trigger] b@[x]@),
                forall|x: int|
                    k <= x < b@.len() ==> self@.session_tokens.contains_key(s@)
                        && self@.session_tokens[s@].bounded.contains(#[trigger] b@[x]@),
                self@.session_tokens.dom() == mb.session_tokens.dom(),
                forall|x: Seq<char>|
                    x != s@ && #[trigger] self@.session_tokens.contains_key(x)
                        ==> self@.session_tokens[x] == mb.session_tokens[x],
                self@ == (TableModel {
                    session_tokens: self@.session_tokens,
                    values: mb.values.remove_keys(prefix_set(b@, k as int)),
                    token_owner: mb.token_owner.remove_keys(prefix_set(b@, k as int)),
                    token_timing: mb.token_timing.remove_keys(prefix_set(b@, k as int)),
                    transferable: mb.transferable.remove_keys(prefix_set(b@, k as int)),
                    token_session: mb.token_session.remove_keys(prefix_set(b@, k as int)),
                    orphaned: mb.orphaned.difference(prefix_set(b@, k as int)),
                    calls: mb.calls + deletes(b@, k as int),
                    ..mb
                }),
            decreases b@.len() - k,
        {
            let ghost mk = self@;
            let ghost t = b@[k as int]@;
            assert(mk.token_session[t] == s@);
            self.destroy_token(&b[k]);
            assert(prefix_set(b@, k + 1) =~= prefix_set(b@, k as int).insert(t)) by {
                assert forall|x: Seq<char>| #[trigger]
                    prefix_set(b@, k + 1).contains(x) implies prefix_set(b@, k as int).insert(
                    t,
                ).contains(x) by {
                    let j = choose|j: int| 0 <= j < k + 1 && #[trigger] b@[j]@ == x;
                    if j < k {
                        assert(prefix_set(b@, k as int).contains(x));
                    }
                }
                assert forall|x: Seq<char>| #[trigger]
                    prefix_set(b@, k as int).insert(t).contains(x) implies prefix_set(
                    b@,
                    k + 1,
                ).contains(x) by {
                    if x != t {
                        let j = choose|j: int| 0 <= j < k && #[trigger] b@[j]@ == x;
                    }
                }
            }
            let ghost done = prefix_set(b@, k as int);
            assert(self@.values =~= mb.values.remove_keys(done.insert(t)));
            assert(self@.token_owner =~= mb.token_owner.remove_keys(done.insert(t)));
            assert(self@.token_timing =~= mb.token_timing.remove_keys(done.insert(t)));
            assert(self@.transferable =~= mb.transferable.remove_keys(done.insert(t)));
            assert(self@.token_session =~= mb.token_session.remove_keys(done.insert(t)));
            assert(self@.orphaned =~= mb.orphaned.difference(done.insert(t)));
            assert(self@.calls =~= mb.calls + deletes(b@, k + 1));
            assert forall|x: int| k + 1 <= x < b@.len() implies self@.session_tokens.contains_key(
                s@,
            ) && self@.session_tokens[s@].bounded.contains(#[trigger] b@[x]@) by {
                assert(mk.session_tokens[s@].bounded.contains(b@[x]@));
            }
            assert(self@.session_tokens.dom() =~= mb.session_tokens.dom());
            k = k + 1;
        }
        let ghost bs = mb.bounded_of(s@);
        assert(prefix_set(b@, b@.len() as int) =~= bs) by {
            assert forall|x: Seq<char>| #[trigger] bs.contains(x) implies prefix_set(
                b@,
                b@.len() as int,
            ).contains(x) by {
                let j = choose|j: int| 0 <= j < b@.len() && #[trigger] b@[j]@ == x;
            }
        }
        self.sessions_to_their_tokens.remove(s);
        assert(self@.session_tokens =~= m0.session_tokens.remove(s@));
        assert(self@.wf()) by {
            let mc = self@;
            assert forall|x: Seq<char>, u: Seq<char>|
                #![trigger mc.session_tokens[x].bounded.contains(u)]
                #![trigger mc.session_tokens[x].carried.contains(u)]
                mc.session_tokens.contains_key(x) && holds(mc.session_tokens[x], u) implies {
                &&& mc.token_session.contains_key(u)
                &&& mc.token_session[u] == x
                &&& !(mc.session_tokens[x].bounded.contains(u)
                    && mc.session_tokens[x].carried.contains(u))
            } by {
                if m0.session_tokens[x].bounded.contains(u) {
                }
                if m0.session_tokens[x].carried.contains(u) {
                }
                if bs.contains(u) {
                    assert(m0.session_tokens[s@].bounded.contains(u));
                }
            }
            assert forall|o2: Seq<char>| #[trigger] mc.owner_session.contains_key(o2) implies {
                &&& mc.session_tokens.contains_key(mc.owner_session[o2])
                &&& mc.session_owner.contains_key(mc.owner_session[o2])
                &&& mc.session_owner[mc.owner_session[o2]] == o2
            } by {
                assert(ma.owner_session.contains_key(o2));
            }
        }
        self.store_del_session_key_value(s);
        let ghost added = pre + deletes(b@, b@.len() as int) + seq![
            StorageCall::DelSessionKeyValue { session: s@ },
        ];
        assert(self@.calls =~= m00.calls + added);
        assert(self@.calls.skip(m00.calls.len() as int) =~= added);
        assert(self@ =~= TableModel { calls: self@.calls, ..m00.without_session(s@) });
        assert(m00.bounded_of(s@) == bs);
        assert(m00.teardown_calls(s@, added)) by {
            let nd = deletes(b@, b@.len() as int);
            assert forall|i: int| 0 <= i < added.len() - 1 implies match #[trigger] added[i] {
                StorageCall::DelKeyValue { key } => (key == s@ && m00.shared_session(s@))
                    || m00.bounded_of(s@).contains(key),
                _ => false,
            } by {
                if i >= pre.len() {
                    assert(added[i] == nd[i - pre.len()]);
                }
            }
            assert forall|t: Seq<char>| #[trigger] m00.bounded_of(s@).contains(t) implies added.contains(
                StorageCall::DelKeyValue { key: t },
            ) by {
                let j = choose|j: int| 0 <= j < b@.len() && #[trigger] b@[j]@ == t;
                assert(added[pre.len() + j] == nd[j]);
            }
        }
    }

    /// The bounded tokens of session `s`, each once.
    fn bounded_tokens(&self, s: &SessionToken) -> (r: Vec<String>)
        requires
            self.inv(),
        ensures
            forall|x: int, y: int|
                0 <= x < r@.len() && 0 <= y < r@.len() && x != y ==> #[trigger] r@[x]@
                    != #[trigger] r@[y]@,
            forall|x: int| 0 <= x < r@.len() ==> self@.bounded_of(s@).contains(#[trigger] r@[x]@),
            forall|t: Seq<char>|
                #[trigger] self@.bounded_of(s@).contains(t) ==> exists|x: int|
                    0 <= x < r@.len() && #[trigger] r@[x]@ == t,
    {
        match self.sessions_to_their_tokens.get(s) {
            Some(sets) => sets.session_bounded.to_vec(),
            None => Vec::new(),
        }
    }

    /// The carried tokens of session `s`, each once.
    fn carried_tokens(&self, s: &SessionToken) -> (r: Vec<String>)
        requires
            self.inv(),
        ensures
            forall|x: int, y: int|
                0 <= x < r@.len() && 0 <= y < r@.len() && x != y ==> #[trigger] r@[x]@
                    != #[trigger] r@[y]@,
            forall|x: int| 0 <= x < r@.len() ==> self@.carried_of(s@).contains(#[trigger] r@[x]@),
            forall|t: Seq<char>|
                #[trigger] self@.carried_of(s@).contains(t) ==> exists|x: int|
                    0 <= x < r@.len() && #[trigger] r@[x]@ == t,
    {
        match self.sessions_to_their_tokens.get(s) {
            Some(sets) => sets.session_carries.to_vec(),
            None => Vec::new(),
        }
    }
}

impl<D: DB, M: TokenMaker> TokenTables<D, M> for LocalSessionTokens<D, M> {
    type Jsonable = Value;

    closed spec fn well_formed(&self) -> bool {
        self.inv()
    }

    fn new(db: D, token_creator: M) -> (r: Self)
        ensures
            r@.session_owner.is_empty(),
            r@.owner_session.is_empty(),
            r@.token_owner.is_empty(),
            r@.token_session.is_empty(),
            r@.verifiers.is_empty(),
            r@.values.is_empty(),
            r@.session_tokens.is_empty(),
            r@.detached.is_empty(),
            r@.orphaned.is_empty(),
            r@.session_timing.is_empty(),
            r@.transferable.is_empty(),
            r@.token_timing.is_empty(),
            r@.general_session_timeout == GENERAL_DEFAULT_SESSION_TIMEOUT,
            r@.general_token_timeout == GENERAL_DEFAULT_SESSION_TIMEOUT,
            r@.calls == Seq::<StorageCall>::empty(),
            r.creator() == token_creator,
    {
        LocalSessionTokens {
            db,
            session_to_owner: StrMap::new(),
            owner_to_session: StrMap::new(),
            token_to_owner: StrMap::new(),
            token_to_session: StrMap::new(),
            session_checking_tokens: StrMap::new(),
            token_to_information: StrMap::new(),
            sessions_to_their_tokens: StrMap::new(),
            detached_sessions: StrSet::new(),
            orphaned_tokens: StrSet::new(),
            session_timing: StrMap::new(),
            all_transferable_tokens: StrMap::new(),
            token_timing: StrMap::new(),
            token_creator,
            general_session_timeout: GENERAL_DEFAULT_SESSION_TIMEOUT,
            general_token_timeout: GENERAL_DEFAULT_SESSION_TIMEOUT,
            calls: Ghost(Seq::empty()),
        }
    }

    /// The owner that the global owner index gives `token`, or the empty
    /// string when it has none.
    fn from_token(&self, token: TransitionToken) -> (r: Ucwid)
        ensures
            r@ == self@.owner_of(token@),
    {
        match self.token_to_owner.get(&token) {
            Some(o) => o.clone(),
            None => String::new(),
        }
    }

    /// Whether `t_token` has a transfer record.
    fn token_is_transferable(&self, t_token: &TransitionToken) -> (r: bool)
        ensures
            r == self@.transferable.contains_key(t_token@),
    {
        self.all_transferable_tokens.contains_key(t_token)
    }

    /// Destroys a token: it leaves its session, and its value, owner, orphan
    /// mark, countdown, transfer record and session link are erased, here and
    /// in storage.
    fn destroy_token(&mut self, token: &TransitionToken)
        ensures
            final(self)@ == old(self)@.without_token(token@),
    {
        let ghost m0 = self@;
        self.unlink(token);
        let ghost m1 = self@;
        self.token_to_information.remove(token);
        self.token_to_owner.remove(token);
        self.orphaned_tokens.remove(token);
        self.token_timing.remove(token);
        self.all_transferable_tokens.remove(token);
        self.token_to_session.remove(token);
        let ghost m2 = self@;
        assert(m2.wf()) by {
            assert forall|s: Seq<char>, u: Seq<char>|
                #![trigger m2.session_tokens[s].bounded.contains(u)]
                #![trigger m2.session_tokens[s].carried.contains(u)]
                m2.session_tokens.contains_key(s) && holds(m2.session_tokens[s], u) implies {
                &&& m2.token_session.contains_key(u)
                &&& m2.token_session[u] == s
                &&& !(m2.session_tokens[s].bounded.contains(u)
                    && m2.session_tokens[s].carried.contains(u))
            } by {
                if m1.session_tokens[s].bounded.contains(u) {
                }
                if m1.session_tokens[s].carried.contains(u) {
                }
                if u == token@ {
                    if m0.session_tokens[s].bounded.contains(u) {
                    }
                    if m0.session_tokens[s].carried.contains(u) {
                    }
                }
            }
        }
        self.store_del_key_value(token);
        assert(self@ =~= m0.without_token(token@));
        assert(self@.exclusive()) by {
            assert forall|s: Seq<char>, u: Seq<char>|
                #![trigger self@.session_tokens[s].bounded.contains(u)]
                #![trigger self@.session_tokens[s].carried.contains(u)]
                self@.session_tokens.contains_key(s) && holds(self@.session_tokens[s], u) implies {
                &&& self@.token_session.contains_key(u)
                &&& self@.token_session[u] == s
                &&& !(self@.session_tokens[s].bounded.contains(u)
                    && self@.session_tokens[s].carried.contains(u))
            } by {
                if m1.session_tokens[s].bounded.contains(u) {
                }
                if m1.session_tokens[s].carried.contains(u) {
                }
                if u == token@ {
                    if m0.session_tokens[s].bounded.contains(u) {
                    }
                    if m0.session_tokens[s].carried.contains(u) {
                    }
                }
            }
        }
    }

    /// Stores `value` under `token`, in storage and here, and starts the
    /// token's countdown afresh. A structured value is stored as its JSON text.
    fn add_token(&mut self, token: &TransitionToken, value: StructOrString<Value>)
        ensures
            match value {
                StructOrString::TypeStr(s) => final(self)@ == old(self)@.with_value(token@, s@),
                StructOrString::TypeGen(_) => final(self)@ == old(self)@.with_value(
                    token@,
                    final(self)@.values[token@],
                ),
            },
    {
        let tval = match value {
            StructOrString::TypeStr(sval) => sval,
            StructOrString::TypeGen(struct_val) => json_text(&struct_val),
        };
        let ghost text = tval@;
        let ghost m0 = self@;
        self.token_to_information.insert(token.clone(), tval.clone());
        let tt_info = TokenTimingInfo::new(self.general_token_timeout);
        self.token_timing.insert(token.clone(), tt_info);
        proof {
            lemma_wf_frame(m0, self@);
        }
        self.store_set_key_value(token, tval.as_str());
        assert(self@ =~= old(self)@.with_value(token@, text));
    }

    /// The value of `token`: the one held here, or else the one that storage
    /// returns for it, which is then held here too.
    fn transition_token_is_active(&mut self, token: &TransitionToken) -> (r: Option<String>)
        ensures
            old(self)@.values.contains_key(token@) ==> (r matches Some(v) && v@ == old(
                self,
            )@.values[token@]) && final(self)@ == old(self)@,
            !old(self)@.values.contains_key(token@) ==> {
                let m = old(self)@.logged(StorageCall::GetKeyValue { key: token@, found: opt_view(r) });
                match r {
                    Some(v) => final(self)@ == m.with_value(token@, v@),
                    None => final(self)@ == m,
                }
            },
    {
        match self.token_to_information.get(token) {
            Some(value) => {
                return Some(value.clone());
            },
            None => {},
        }
        match self.store_get_key_value(token) {
            Some(db_val) => {
                self.add_token(token, StructOrString::TypeStr(db_val.clone()));
                Some(db_val)
            },
            None => None,
        }
    }

    /// Registers session `session_token` for `ownership_key`: storage keeps
    /// the owner secret and hands back a verifier, which is kept for later
    /// checks; the session gets empty token sets and a fresh countdown, shared
    /// when `shared` is `Some(true)`. A given `o_t_token` is bound into the
    /// session, owned by the same owner, with the verifier as its value. The
    /// verifier is returned for a shared session only.
    fn add_session(
        &mut self,
        session_token: &SessionToken,
        ownership_key: &Ucwid,
        o_t_token: Option<TransitionToken>,
        shared: Option<bool>,
    ) -> (r: Option<crate::records::Hash>)
        ensures
            ({
                let h = final(self)@.verifiers[session_token@];
                let is_shared = shared == Some(true);
                let m = old(self)@.logged(
                    StorageCall::SetSessionKeyValue {
                        session: session_token@,
                        owner: ownership_key@,
                        verifier: h,
                    },
                ).with_session(session_token@, ownership_key@, h, is_shared);
                let m2 = match o_t_token {
                    Some(t) => m.bound(t@, session_token@, ownership_key@, false).with_value(t@, h),
                    None => m,
                };
                let info = SessionTimingInfo {
                    shared: is_shared,
                    ..SessionTimingInfo::fresh(old(self)@.general_session_timeout)
                };
                &&& final(self)@ == m2.persisted(session_token@, info)
                &&& (r is Some <==> shared == Some(true))
                &&& (r matches Some(v) ==> v@ == h)
            }),
    {
        let owner_verifier = self.store_set_session_key_value(session_token, ownership_key.clone());
        let ghost m0 = self@;
        match self.session_to_owner.get(session_token) {
            Some(owner) => {
                let owner = owner.clone();
                let linked = match self.owner_to_session.get(&owner) {
                    Some(os) => *os == *session_token,
                    None => false,
                };
                if linked {
                    self.owner_to_session.remove(&owner);
                }
            },
            None => {},
        }
        assert(self@.owner_session == m0.owner_links_without(session_token@));
        self.session_to_owner.insert(session_token.clone(), ownership_key.clone());
        self.owner_to_session.insert(ownership_key.clone(), session_token.clone());
        self.session_checking_tokens.insert(session_token.clone(), owner_verifier.clone());
        self.sessions_to_their_tokens.insert(session_token.clone(), SessionTokenSets::new());
        self.detached_sessions.remove(session_token);
        let mut sti = SessionTimingInfo::new(self.general_session_timeout);
        let is_shared = match shared {
            Some(b) => b,
            None => false,
        };
        sti.shared = is_shared;
        self.session_timing.insert(session_token.clone(), sti);
        let ghost m = m0.with_session(session_token@, ownership_key@, owner_verifier@, is_shared);
        assert(self@ =~= m);
        assert(self@.wf()) by {
            assert forall|x: Seq<char>, u: Seq<char>|
                #![trigger m.session_tokens[x].bounded.contains(u)]
                #![trigger m.session_tokens[x].carried.contains(u)]
                m.session_tokens.contains_key(x) && holds(m.session_tokens[x], u) implies {
                &&& m.token_session.contains_key(u)
                &&& m.token_session[u] == x
                &&& !(m.session_tokens[x].bounded.contains(u) && m.session_tokens[x].carried.contains(u))
            } by {
                if m0.session_tokens[x].bounded.contains(u) {
                }
                if m0.session_tokens[x].carried.contains(u) {
                }
            }
            assert forall|o2: Seq<char>| #[trigger] m.owner_session.contains_key(o2) implies {
                &&& m.session_tokens.contains_key(m.owner_session[o2])
                &&& m.session_owner.contains_key(m.owner_session[o2])
                &&& m.session_owner[m.owner_session[o2]] == o2
            } by {
                if o2 != ownership_key@ {
                    assert(m0.owner_session.contains_key(o2));
                }
            }
        }
        match o_t_token {
            Some(t_token) => {
                self.bind_token(&t_token, session_token, ownership_key, false);
                self.add_token(&t_token, StructOrString::TypeStr(owner_verifier.clone()));
            },
            None => {},
        }
        if is_shared {
            self.persist_session_timing(session_token, &sti);
            Some(owner_verifier)
        } else {
            None
        }
    }

    /// Asks storage whether `ownership_key` matches the verifier kept for the
    /// session, and returns its answer. A session with no verifier is not
    /// active, and storage is not asked.
    fn active_session(&mut self, session_token: &SessionToken, ownership_key: &Ucwid) -> (r: Option<bool>)
        ensures
            r is Some,
            old(self)@.verifiers.contains_key(session_token@) ==> final(self)@ == old(self)@.logged(
                StorageCall::CheckHash {
                    verifier: old(self)@.verifiers[session_token@],
                    owner: ownership_key@,
                    answer: r->0,
                },
            ),
            !old(self)@.verifiers.contains_key(session_token@) ==> r == Some(false) && final(self)@
                == old(self)@,
    {
        let verifier = match self.session_checking_tokens.get(session_token) {
            Some(hh_unidentified) => hh_unidentified.clone(),
            None => {
                return Some(false);
            },
        };
        Some(self.store_check_hash(&verifier, ownership_key.clone()))
    }

    /// Destroys the session that `token` belongs to; see
    /// `TableModel::without_session`. A token with no session changes nothing.
    fn destroy_session(&mut self, token: &TransitionToken)
        ensures
            old(self)@.token_session.contains_key(token@) ==> {
                let s = old(self)@.token_session[token@];
                let added = final(self)@.calls.skip(old(self)@.calls.len() as int);
                &&& final(self)@ == (TableModel { calls: final(self)@.calls, ..old(self)@.without_session(s) })
                &&& final(self)@.calls == old(self)@.calls + added
                &&& old(self)@.teardown_calls(s, added)
            },
            !old(self)@.token_session.contains_key(token@) ==> final(self)@ == old(self)@,
    {
        match self.token_to_session.get(token) {
            Some(st) => {
                let session_token = st.clone();
                self.remove_session(&session_token);
            },
            None => {},
        }
    }

    /// Permits the session to detach; a shared record is mirrored to storage.
    fn allow_session_detach(&mut self, session_token: SessionToken)
        ensures
            old(self)@.session_timing.contains_key(session_token@) ==> {
                let info = SessionTimingInfo {
                    detachment_allowed: true,
                    ..old(self)@.session_timing[session_token@]
                };
                final(self)@ == (TableModel {
                    session_timing: old(self)@.session_timing.insert(session_token@, info),
                    ..old(self)@
                }).persisted(session_token@, info)
            },
            !old(self)@.session_timing.contains_key(session_token@) ==> final(self)@ == old(self)@,
    {
        match self.session_timing.get(&session_token) {
            Some(s_time_info) => {
                let mut info = *s_time_info;
                info.detachment_allowed = true;
                self.session_timing.insert(session_token.clone(), info);
                assert(self@ =~= TableModel {
                    session_timing: old(self)@.session_timing.insert(session_token@, info),
                    ..old(self)@
                });
                proof {
                    lemma_wf_frame(old(self)@, self@);
                }
                self.persist_session_timing(&session_token, &info);
            },
            None => {},
        }
    }

    /// Detaches a session: it now counts down its time after detachment, and
    /// is listed as detached; a shared record is mirrored to storage.
    fn detach_session(&mut self, session_token: SessionToken)
        ensures
            old(self)@.session_timing.contains_key(session_token@) ==> {
                let info = SessionTimingInfo {
                    is_detached: true,
                    ..old(self)@.session_timing[session_token@]
                };
                final(self)@ == (TableModel {
                    session_timing: old(self)@.session_timing.insert(session_token@, info),
                    detached: old(self)@.detached.insert(session_token@),
                    ..old(self)@
                }).persisted(session_token@, info)
            },
            !old(self)@.session_timing.contains_key(session_token@) ==> final(self)@ == old(self)@,
    {
        match self.session_timing.get(&session_token) {
            Some(s_time_info) => {
                let mut info = *s_time_info;
                info.is_detached = true;
                self.session_timing.insert(session_token.clone(), info);
                self.detached_sessions.insert(session_token.clone());
                assert(self@ =~= TableModel {
                    session_timing: old(self)@.session_timing.insert(session_token@, info),
                    detached: old(self)@.detached.insert(session_token@),
                    ..old(self)@
                });
                proof {
                    lemma_wf_frame(old(self)@, self@);
                }
                self.persist_session_timing(&session_token, &info);
            },
            None => {},
        }
    }

    /// Attaches a session again: it counts down its main time, and is no
    /// longer listed as detached; a shared record is mirrored to storage.
    fn attach_session(&mut self, session_token: SessionToken)
        ensures
            old(self)@.session_timing.contains_key(session_token@) ==> {
                let info = SessionTimingInfo {
                    is_detached: false,
                    ..old(self)@.session_timing[session_token@]
                };
                final(self)@ == (TableModel {
                    session_timing: old(self)@.session_timing.insert(session_token@, info),
                    detached: old(self)@.detached.remove(session_token@),
                    ..old(self)@
                }).persisted(session_token@, info)
            },
            !old(self)@.session_timing.contains_key(session_token@) ==> final(self)@ == old(self)@,
    {
        match self.session_timing.get(&session_token) {
            Some(s_time_info) => {
                let mut info = *s_time_info;
                info.is_detached = false;
                self.session_timing.insert(session_token.clone(), info);
                self.detached_sessions.remove(&session_token);
                assert(self@ =~= TableModel {
                    session_timing: old(self)@.session_timing.insert(session_token@, info),
                    detached: old(self)@.detached.remove(session_token@),
                    ..old(self)@
                });
                proof {
                    lemma_wf_frame(old(self)@, self@);
                }
                self.persist_session_timing(&session_token, &info);
            },
            None => {},
        }
    }

    /// Binds `t_token` into the bounded set of the session of
    /// `ownership_key`, owned by that owner, and stores `value` under it. A
    /// bounded token is not transferable: any transfer record it had is
    /// dropped. An owner without a session changes nothing.
    fn add_session_bounded_token(
        &mut self,
        t_token: &TransitionToken,
        value: StructOrString<Value>,
        ownership_key: &Ucwid,
    )
        ensures
            old(self)@.owner_session.contains_key(ownership_key@) ==> {
                let m = TableModel {
                    transferable: old(self)@.transferable.remove(t_token@),
                    ..old(self)@.bound(
                        t_token@,
                        old(self)@.owner_session[ownership_key@],
                        ownership_key@,
                        false,
                    )
                };
                match value {
                    StructOrString::TypeStr(v) => final(self)@ == m.with_value(t_token@, v@),
                    StructOrString::TypeGen(_) => final(self)@ == m.with_value(
                        t_token@,
                        final(self)@.values[t_token@],
                    ),
                }
            },
            !old(self)@.owner_session.contains_key(ownership_key@) ==> final(self)@ == old(self)@,
    {
        match self.owner_to_session.get(ownership_key) {
            Some(session_token) => {
                let sst = session_token.clone();
                assert(self@.owner_session.contains_key(ownership_key@));
                self.bind_token(t_token, &sst, ownership_key, false);
                let ghost mb = self@;
                self.all_transferable_tokens.remove(t_token);
                let ghost m = self@;
                proof {
                    lemma_wf_frame(mb, m);
                }
                self.add_token(t_token, value);
                assert(m.with_value(t_token@, self@.values[t_token@]).values =~= self@.values);
            },
            None => {},
        }
    }

    /// Makes `t_token` transferable and carried by the session of
    /// `ownership_key`, owned by that owner, and stores `value` under it. The
    /// value must hold a transfer record: a boolean `_sellable`, an integer
    /// `_price` and, optionally, a string `_owner`; the token's transfer
    /// record takes them, with `ownership_key` as owner where `_owner` is
    /// missing. An owner without a session, or a value that holds no transfer
    /// record, changes nothing and calls nothing on storage. A structured
    /// value is read and stored as its JSON text.
    fn add_transferable_token(
        &mut self,
        t_token: &TransitionToken,
        value: StructOrString<Value>,
        ownership_key: &Ucwid,
    )
        ensures
            !old(self)@.owner_session.contains_key(ownership_key@) ==> final(self)@ == old(self)@,
            old(self)@.owner_session.contains_key(ownership_key@) ==> match value {
                StructOrString::TypeStr(x) => final(self)@ == if transfer_fields(x@) {
                    old(self)@.installed(t_token@, ownership_key@, x@)
                } else {
                    old(self)@
                },
                StructOrString::TypeGen(_) => final(self)@ == old(self)@ || (transfer_fields(
                    final(self)@.values[t_token@],
                ) && final(self)@ == old(self)@.installed(
                    t_token@,
                    ownership_key@,
                    final(self)@.values[t_token@],
                )),
            },
    {
        let session_token = match self.owner_to_session.get(ownership_key) {
            Some(st) => st.clone(),
            None => {
                return;
            },
        };
        let store_value = match value {
            StructOrString::TypeStr(sval) => sval,
            StructOrString::TypeGen(struct_val) => json_text(&struct_val),
        };
        let sellable = match read_bool_member(store_value.as_str(), "_sellable") {
            Some(b) => b,
            None => {
                return;
            },
        };
        let price = match read_int_member(store_value.as_str(), "_price") {
            Some(p) => p,
            None => {
                return;
            },
        };
        let owner = read_str_member(store_value.as_str(), "_owner");
        let mut tt_info = TransferableTokenInfo::new(ownership_key.clone());
        tt_info.apply_members(Some(sellable), Some(price), owner);
        assert(self@.owner_session.contains_key(ownership_key@));
        self.bind_token(t_token, &session_token, ownership_key, true);
        let ghost mb = self@;
        self.all_transferable_tokens.insert(t_token.clone(), tt_info);
        proof {
            lemma_wf_frame(mb, self@);
        }
        assert(tt_info@ == transfer_record_of(store_value@, ownership_key@));
        self.add_token(t_token, StructOrString::TypeStr(store_value));
    }

    /// Where `t_token` has a value (here or in storage), session
    /// `session_token` takes it over for `owner`: the session carries it, and
    /// its transfer record, kept or fresh, names `owner`. Returns whether the
    /// token had a value.
    fn acquire_token(&mut self, t_token: &TransitionToken, session_token: &SessionToken, owner: &Ucwid) -> (r: bool)
        ensures
            !r ==> final(self)@ == old(self)@.logged(
                StorageCall::GetKeyValue { key: t_token@, found: None },
            ),
            old(self)@.values.contains_key(t_token@) ==> r,
            r ==> {
                let m1 = if old(self)@.values.contains_key(t_token@) {
                    old(self)@
                } else {
                    old(self)@.logged(
                        StorageCall::GetKeyValue {
                            key: t_token@,
                            found: Some(final(self)@.values[t_token@]),
                        },
                    ).with_value(t_token@, final(self)@.values[t_token@])
                };
                if m1.session_tokens.contains_key(session_token@) {
                    final(self)@ == m1.carrying(
                        t_token@,
                        session_token@,
                        owner@,
                        m1.acquired_info(t_token@, owner@),
                    )
                } else {
                    final(self)@ == m1
                }
            },
    {
        match self.transition_token_is_active(t_token) {
            Some(_) => {
                if self.sessions_to_their_tokens.contains_key(session_token) {
                    let ghost m1 = self@;
                    let info = match self.all_transferable_tokens.remove(t_token) {
                        Some(existing) => {
                            let mut existing = existing;
                            existing.owner = owner.clone();
                            existing
                        },
                        None => TransferableTokenInfo::new(owner.clone()),
                    };
                    proof {
                        lemma_wf_frame(m1, self@);
                    }
                    self.bind_token(t_token, session_token, owner, true);
                    let ghost mb = self@;
                    self.all_transferable_tokens.insert(t_token.clone(), info);
                    proof {
                        lemma_wf_frame(mb, self@);
                    }
                    assert(self@.transferable =~= m1.transferable.insert(t_token@, info@));
                }
                true
            },
            None => false,
        }
    }

    /// Passes transferable `t_token` from `yielder_key` to `receiver_key`;
    /// see `TableModel::transferred`. When both owners have sessions and
    /// differ, the receiver owns the token afterwards, its session carries
    /// it, and the yielder's session does not.
    fn transfer_token(&mut self, t_token: &TransitionToken, yielder_key: &Ucwid, receiver_key: &Ucwid)
        ensures
            final(self)@ == old(self)@.transferred(t_token@, yielder_key@, receiver_key@),
            (old(self)@.transferable.contains_key(t_token@)
                && old(self)@.owner_session.contains_key(yielder_key@)
                && old(self)@.owner_session.contains_key(receiver_key@) && yielder_key@
                != receiver_key@) ==> {
                &&& final(self)@.owner_of(t_token@) == receiver_key@
                &&& final(self)@.carried_of(final(self)@.owner_session[receiver_key@]).contains(t_token@)
                &&& !final(self)@.carried_of(old(self)@.owner_session[yielder_key@]).contains(t_token@)
            },
    {
        if !self.token_is_transferable(t_token) {
            return;
        }
        let y_session_token = match self.owner_to_session.get(yielder_key) {
            Some(st) => st.clone(),
            None => {
                return;
            },
        };
        let t_info_str = match self.token_to_information.get(t_token) {
            Some(tis) => tis.clone(),
            None => String::new(),
        };
        let (sellable, price) = match self.all_transferable_tokens.get(t_token) {
            Some(info) => (info.sellable, info.price),
            None => (false, 0),
        };
        let ghost m0 = self@;
        let carried = match self.sessions_to_their_tokens.get(&y_session_token) {
            Some(sets) => sets.session_carries.contains(t_token),
            None => false,
        };
        if !self.orphaned_tokens.contains(t_token) && carried {
            self.destroy_token(t_token);
        }
        match self.owner_to_session.get(receiver_key) {
            Some(r_session_token) => {
                let rsst = r_session_token.clone();
                assert(self@.owner_session.contains_key(receiver_key@));
                self.add_token(t_token, StructOrString::TypeStr(t_info_str));
                self.bind_token(t_token, &rsst, receiver_key, true);
                let ghost mb = self@;
                let info = TransferableTokenInfo { sellable, price, owner: receiver_key.clone() };
                self.all_transferable_tokens.insert(t_token.clone(), info);
                proof {
                    lemma_wf_frame(mb, self@);
                }
            },
            None => {},
        }
        assert(self@ =~= m0.transferred(t_token@, yielder_key@, receiver_key@));
        proof {
            let mf = self@;
            if m0.transferable.contains_key(t_token@) && m0.owner_session.contains_key(yielder_key@)
                && m0.owner_session.contains_key(receiver_key@) && yielder_key@ != receiver_key@ {
                let ys = m0.owner_session[yielder_key@];
                let rs = mf.owner_session[receiver_key@];
                assert(mf.session_owner[rs] == receiver_key@);
                assert(mf.session_owner[ys] == yielder_key@);
                assert(mf.session_tokens[rs].carried.contains(t_token@));
                if mf.carried_of(ys).contains(t_token@) {
                    assert(mf.session_tokens[ys].carried.contains(t_token@));
                }
            }
        }
    }

    /// One sweep: every session and token countdown that runs loses
    /// `SESSION_CHOP_INTERVAL`. A session whose countdown reaches zero or
    /// below is destroyed, with its bounded tokens; then a token whose
    /// countdown reaches zero or below is destroyed.
    fn decrement_timers(&mut self)
        ensures
            forall|s: Seq<char>| #[trigger]
                old(self)@.session_timing.contains_key(s) ==> if session_expires(
                    old(self)@.session_timing[s],
                ) {
                    final(self)@.session_gone(s)
                } else {
                    final(self)@.session_timing.contains_key(s) && final(self)@.session_timing[s]
                        == session_chopped(old(self)@.session_timing[s])
                },
            forall|s: Seq<char>| #[trigger]
                final(self)@.session_timing.contains_key(s) ==> old(self)@.session_timing.contains_key(s),
            forall|s: Seq<char>, b: Seq<char>|
                expiring(old(self)@, s) && #[trigger] old(self)@.bounded_of(s).contains(b)
                    ==> final(self)@.token_gone(b) && called_since(
                    final(self)@.calls,
                    old(self)@.calls.len() as int,
                    StorageCall::DelKeyValue { key: b },
                ),
            forall|s: Seq<char>, c: Seq<char>|
                expiring(old(self)@, s) && #[trigger] old(self)@.carried_of(s).contains(c) && !(old(
                    self,
                )@.token_timing.contains_key(c) && token_expires(old(self)@.token_timing[c]))
                    ==> final(self)@.orphaned.contains(c),
            forall|s: Seq<char>| #[trigger]
                expiring(old(self)@, s) ==> called_since(
                    final(self)@.calls,
                    old(self)@.calls.len() as int,
                    StorageCall::DelSessionKeyValue { session: s },
                ),
            forall|t: Seq<char>| #[trigger]
                old(self)@.token_timing.contains_key(t) ==> if token_expires(
                    old(self)@.token_timing[t],
                ) {
                    final(self)@.token_gone(t) && called_since(
                        final(self)@.calls,
                        old(self)@.calls.len() as int,
                        StorageCall::DelKeyValue { key: t },
                    )
                } else {
                    !bounded_by_expiring(old(self)@, t) ==> final(self)@.token_timing.contains_key(t)
                        && final(self)@.token_timing[t] == token_chopped(old(self)@.token_timing[t])
                },
            old(self)@.calls.len() <= final(self)@.calls.len(),
            forall|x: int|
                0 <= x < old(self)@.calls.len() ==> #[trigger] final(self)@.calls[x] == old(
                    self,
                )@.calls[x],
            forall|x: int|
                old(self)@.calls.len() <= x < final(self)@.calls.len() ==> is_delete(
                    #[trigger] final(self)@.calls[x],
                ),
            forall|t: Seq<char>| #[trigger]
                final(self)@.token_timing.contains_key(t) ==> old(self)@.token_timing.contains_key(t),
    {
        let ghost m0 = self@;
        let skeys = self.session_timing.keys();
        let mut expired: Vec<String> = Vec::new();
        let mut i: usize = 0;
        while i < skeys.len()
            invariant
                self.inv(),
                m0.wf(),
                0 <= i <= skeys@.len(),
                forall|x: int| 0 <= x < skeys@.len() ==> m0.session_timing.contains_key(#[trigger] skeys@[x]@),
                forall|x: int, y: int|
                    0 <= x < skeys@.len() && 0 <= y < skeys@.len() && x != y ==> #[trigger] skeys@[x]@
                        != #[trigger] skeys@[y]@,
                self@ == (TableModel { session_timing: self@.session_timing, ..m0 }),
                self@.session_timing.dom() == m0.session_timing.dom(),
                forall|x: int|
                    i <= x < skeys@.len() ==> self@.session_timing[#[trigger] skeys@[x]@]
                        == m0.session_timing[skeys@[x]@],
                forall|x: int|
                    0 <= x < i && !session_expires(m0.session_timing[#[trigger] skeys@[x]@])
                        ==> self@.session_timing[skeys@[x]@] == session_chopped(m0.session_timing[skeys@[x]@]),
                forall|x: int|
                    0 <= x < i && session_expires(m0.session_timing[#[trigger] skeys@[x]@]) ==> exists|d: int|
                        0 <= d < expired@.len() && #[trigger] expired@[d]@ == skeys@[x]@,
                forall|d: int|
                    0 <= d < expired@.len() ==> m0.session_timing.contains_key(#[trigger] expired@[d]@)
                        && session_expires(m0.session_timing[expired@[d]@]),
                forall|d: int|
                    #![trigger expired@[d]]
                    0 <= d < expired@.len() ==> exists|x: int|
                        0 <= x < i && #[trigger] skeys@[x]@ == expired@[d]@,
                forall|d1: int, d2: int|
                    0 <= d1 < expired@.len() && 0 <= d2 < expired@.len() && d1 != d2
                        ==> #[trigger] expired@[d1]@ != #[trigger] expired@[d2]@,
            decreases skeys@.len() - i,
        {
            let key = skeys[i].clone();
            let info = match self.session_timing.get(&key) {
                Some(info) => *info,
                None => {
                    assert(false);
                    SessionTimingInfo::new(0)
                },
            };
            let ghost exp_before = expired@;
            if info.is_detached {
                if info.time_left_after_detachment <= SESSION_CHOP_INTERVAL {
                    expired.push(key);
                } else {
                    let mut next = info;
                    next.time_left_after_detachment = info.time_left_after_detachment - SESSION_CHOP_INTERVAL;
                    self.session_timing.insert(key, next);
                }
            } else {
                if info.time_left <= SESSION_CHOP_INTERVAL {
                    expired.push(key);
                } else {
                    let mut next = info;
                    next.time_left = info.time_left - SESSION_CHOP_INTERVAL;
                    self.session_timing.insert(key, next);
                }
            }
            proof {
                lemma_wf_frame(m0, self@);
                assert forall|x: int|
                    0 <= x < i + 1 && session_expires(m0.session_timing[#[trigger] skeys@[x]@]) implies exists|d: int|
                    0 <= d < expired@.len() && #[trigger] expired@[d]@ == skeys@[x]@ by {
                    if x == i {
                        assert(expired@[expired@.len() - 1]@ == skeys@[x]@);
                    } else {
                        let d = choose|d: int| 0 <= d < exp_before.len() && #[trigger] exp_before[d]@ == skeys@[x]@;
                        assert(expired@[d] == exp_before[d]);
                    }
                }
                assert forall|dd: int|
                    #![trigger expired@[dd]]
                    0 <= dd < expired@.len() implies exists|x: int|
                    0 <= x < i + 1 && #[trigger] skeys@[x]@ == expired@[dd]@ by {
                    if dd < exp_before.len() {
                        assert(expired@[dd] == exp_before[dd]);
                        let x = choose|x: int| 0 <= x < i && #[trigger] skeys@[x]@ == exp_before[dd]@;
                        assert(skeys@[x]@ == expired@[dd]@);
                    } else {
                        assert(skeys@[i as int]@ == expired@[dd]@);
                    }
                }
                assert forall|d1: int, d2: int|
                    0 <= d1 < expired@.len() && 0 <= d2 < expired@.len() && d1 != d2
                        implies #[trigger] expired@[d1]@ != #[trigger] expired@[d2]@ by {
                    if d1 < exp_before.len() && d2 < exp_before.len() {
                        assert(expired@[d1] == exp_before[d1]);
                        assert(expired@[d2] == exp_before[d2]);
                    } else if d1 < exp_before.len() {
                        assert(expired@[d1] == exp_before[d1]);
                        let x = choose|x: int| 0 <= x < i && #[trigger] skeys@[x]@ == exp_before[d1]@;
                        assert(expired@[d2]@ == skeys@[i as int]@);
                    } else if d2 < exp_before.len() {
                        assert(expired@[d2] == exp_before[d2]);
                        let x = choose|x: int| 0 <= x < i && #[trigger] skeys@[x]@ == exp_before[d2]@;
                        assert(expired@[d1]@ == skeys@[i as int]@);
                    }
                }
            }
            assert(self@.session_timing.dom() =~= m0.session_timing.dom());
            i = i + 1;
        }
        proof {
            assert forall|k: Seq<char>| #[trigger] m0.session_timing.contains_key(k) && session_expires(m0.session_timing[k])
                implies exists|d: int| 0 <= d < expired@.len() && #[trigger] expired@[d]@ == k by {
                let x = choose|x: int| 0 <= x < skeys@.len() && #[trigger] skeys@[x]@ == k;
                assert(session_expires(m0.session_timing[skeys@[x]@]));
            }
        }
        let ghost m1 = self@;
        let mut d: usize = 0;
        while d < expired.len()
            invariant
                self.inv(),
                0 <= d <= expired@.len(),
                forall|e: int| 0 <= e < d ==> self@.session_gone(#[trigger] expired@[e]@),
                self@.session_timing == m1.session_timing.remove_keys(prefix_set(expired@, d as int)),
                forall|t: Seq<char>| #[trigger]
                    self@.token_timing.contains_key(t) ==> m0.token_timing.contains_key(t)
                        && self@.token_timing[t] == m0.token_timing[t],
                forall|t: Seq<char>|
                    m0.token_timing.contains_key(t) && !self@.token_timing.contains_key(t) ==> #[trigger] self@.token_gone(t),
                m0.wf(),
                forall|k: Seq<char>| #[trigger]
                    expiring(m0, k) ==> exists|e: int| 0 <= e < expired@.len() && #[trigger] expired@[e]@ == k,
                forall|x: int|
                    0 <= x < expired@.len() ==> expiring(m0, #[trigger] expired@[x]@),
                forall|d1: int, d2: int|
                    0 <= d1 < expired@.len() && 0 <= d2 < expired@.len() && d1 != d2
                        ==> #[trigger] expired@[d1]@ != #[trigger] expired@[d2]@,
                forall|x: int|
                    d <= x < expired@.len() ==> self@.bounded_of(#[trigger] expired@[x]@) == m0.bounded_of(
                        expired@[x]@,
                    ) && self@.carried_of(expired@[x]@) == m0.carried_of(expired@[x]@),
                forall|x: int, b: Seq<char>|
                    0 <= x < d && #[trigger] m0.bounded_of(expired@[x]@).contains(b) ==> self@.token_gone(b)
                        && called_since(self@.calls, m0.calls.len() as int, StorageCall::DelKeyValue { key: b }),
                forall|x: int, c: Seq<char>|
                    0 <= x < d && #[trigger] m0.carried_of(expired@[x]@).contains(c) ==> self@.orphaned.contains(c),
                forall|t: Seq<char>|
                    #[trigger] m0.token_timing.contains_key(t) && (forall|x: int|
                        0 <= x < d ==> !m0.bounded_of(#[trigger] expired@[x]@).contains(t))
                        ==> self@.token_timing.contains_key(t),
                forall|x: int|
                    #![trigger expired@[x]]
                    0 <= x < d ==> called_since(
                        self@.calls,
                        m0.calls.len() as int,
                        StorageCall::DelSessionKeyValue { session: expired@[x]@ },
                    ),
                m0.calls.len() <= self@.calls.len(),
                forall|x: int| 0 <= x < m0.calls.len() ==> #[trigger] self@.calls[x] == m0.calls[x],
                forall|x: int| m0.calls.len() <= x < self@.calls.len() ==> is_delete(#[trigger] self@.calls[x]),
            decreases expired@.len() - d,
        {
            let ghost md = self@;
            let ghost sd = expired@[d as int]@;
            self.remove_session(&expired[d]);
            proof {
                let mf = self@;
                let n0 = m0.calls.len() as int;
                let nd = md.calls.len() as int;
                let added = mf.calls.skip(nd);
                assert(md.teardown_calls(sd, added));
                assert forall|x: int| 0 <= x < nd implies #[trigger] mf.calls[x] == md.calls[x] by {
                    assert(mf.calls[x] == (md.calls + added)[x]);
                }
                assert forall|x: int| nd <= x < mf.calls.len() implies is_delete(#[trigger] mf.calls[x]) by {
                    assert(mf.calls[x] == added[x - nd]);
                    if x - nd < added.len() - 1 {
                        assert(is_delete(added[x - nd]));
                    }
                }
                assert forall|x: int| d + 1 <= x < expired@.len() implies mf.bounded_of(#[trigger] expired@[x]@)
                    == m0.bounded_of(expired@[x]@) && mf.carried_of(expired@[x]@) == m0.carried_of(expired@[x]@) by {
                    assert(expired@[x]@ != sd);
                    assert(md.bounded_of(expired@[x]@) == m0.bounded_of(expired@[x]@));
                }
                assert(md.bounded_of(sd) == m0.bounded_of(sd));
                assert(md.carried_of(sd) == m0.carried_of(sd));
                assert forall|x: int, b2: Seq<char>|
                    0 <= x < d + 1 && #[trigger] m0.bounded_of(expired@[x]@).contains(b2) implies mf.token_gone(b2)
                    && called_since(mf.calls, n0, StorageCall::DelKeyValue { key: b2 }) by {
                    if x < d {
                        assert(md.token_gone(b2));
                        if md.carried_of(sd).contains(b2) {
                            assert(md.session_tokens[sd].carried.contains(b2));
                        }
                        let i0 = choose|i0: int| n0 <= i0 < md.calls.len() && md.calls[i0] == StorageCall::DelKeyValue { key: b2 };
                        assert(mf.calls[i0] == md.calls[i0]);
                    } else {
                        assert(md.bounded_of(sd).contains(b2));
                        assert(added.contains(StorageCall::DelKeyValue { key: b2 }));
                        let j0 = choose|j0: int| 0 <= j0 < added.len() && added[j0] == StorageCall::DelKeyValue { key: b2 };
                        assert(mf.calls[nd + j0] == added[j0]);
                    }
                }
                assert forall|x: int, c2: Seq<char>|
                    0 <= x < d + 1 && #[trigger] m0.carried_of(expired@[x]@).contains(c2) implies mf.orphaned.contains(c2) by {
                    if x < d {
                        assert(md.orphaned.contains(c2));
                        assert(m0.session_tokens[expired@[x]@].carried.contains(c2));
                        if m0.bounded_of(sd).contains(c2) {
                            assert(m0.session_tokens[sd].bounded.contains(c2));
                        }
                    } else {
                        assert(md.session_tokens[sd].carried.contains(c2));
                    }
                }
                assert forall|t: Seq<char>|
                    #[trigger] m0.token_timing.contains_key(t) && (forall|x: int|
                        0 <= x < d + 1 ==> !m0.bounded_of(#[trigger] expired@[x]@).contains(t))
                        implies mf.token_timing.contains_key(t) by {
                    assert(!m0.bounded_of(expired@[d as int]@).contains(t));
                }
                assert forall|x: int|
                    #![trigger expired@[x]]
                    0 <= x < d + 1 implies called_since(
                        mf.calls,
                        n0,
                        StorageCall::DelSessionKeyValue { session: expired@[x]@ },
                    ) by {
                    if x < d {
                        let i0 = choose|i0: int| n0 <= i0 < md.calls.len() && md.calls[i0] == StorageCall::DelSessionKeyValue { session: expired@[x]@ };
                        assert(mf.calls[i0] == md.calls[i0]);
                    } else {
                        assert(mf.calls[mf.calls.len() - 1] == added.last());
                    }
                }
                lemma_prefix_step(expired@, d as int);
                assert(self@.session_timing =~= m1.session_timing.remove_keys(prefix_set(expired@, d + 1)));
                assert forall|t: Seq<char>|
                    m0.token_timing.contains_key(t) && !self@.token_timing.contains_key(t) implies #[trigger] self@.token_gone(t) by {
                    if md.token_timing.contains_key(t) {
                        assert(md.bounded_of(sd).contains(t));
                    } else {
                        assert(md.token_gone(t));
                        if md.carried_of(sd).contains(t) {
                            assert(md.session_tokens[sd].carried.contains(t));
                        }
                    }
                }
            }
            d = d + 1;
        }
        proof {
            assert forall|k: Seq<char>| #[trigger] m0.session_timing.contains_key(k) && session_expires(m0.session_timing[k])
                implies self@.session_gone(k) by {
                let e = choose|e: int| 0 <= e < expired@.len() && #[trigger] expired@[e]@ == k;
            }
            assert forall|k: Seq<char>| #[trigger] m0.session_timing.contains_key(k) && !session_expires(m0.session_timing[k])
                implies !prefix_set(expired@, expired@.len() as int).contains(k) by {
                if prefix_set(expired@, expired@.len() as int).contains(k) {
                    let e = choose|e: int| 0 <= e < expired@.len() && #[trigger] expired@[e]@ == k;
                }
            }
            assert forall|k: Seq<char>| #[trigger] m0.session_timing.contains_key(k) && !session_expires(m0.session_timing[k])
                implies m1.session_timing.contains_key(k) && m1.session_timing[k] == session_chopped(m0.session_timing[k]) by {
                let x = choose|x: int| 0 <= x < skeys@.len() && #[trigger] skeys@[x]@ == k;
            }
        }
        proof {
            let mm = self@;
            assert forall|s2: Seq<char>, b2: Seq<char>|
                expiring(m0, s2) && #[trigger] m0.bounded_of(s2).contains(b2) implies mm.token_gone(b2)
                && called_since(mm.calls, m0.calls.len() as int, StorageCall::DelKeyValue { key: b2 }) by {
                let e = choose|e: int| 0 <= e < expired@.len() && #[trigger] expired@[e]@ == s2;
                assert(m0.bounded_of(expired@[e]@).contains(b2));
            }
            assert forall|s2: Seq<char>, c2: Seq<char>|
                expiring(m0, s2) && #[trigger] m0.carried_of(s2).contains(c2) implies mm.orphaned.contains(c2) by {
                let e = choose|e: int| 0 <= e < expired@.len() && #[trigger] expired@[e]@ == s2;
                assert(m0.carried_of(expired@[e]@).contains(c2));
            }
            assert forall|s2: Seq<char>| #[trigger] expiring(m0, s2) implies mm.session_gone(s2) && called_since(
                mm.calls,
                m0.calls.len() as int,
                StorageCall::DelSessionKeyValue { session: s2 },
            ) by {
                let e = choose|e: int| 0 <= e < expired@.len() && #[trigger] expired@[e]@ == s2;
            }
            assert forall|t: Seq<char>|
                #[trigger] m0.token_timing.contains_key(t) && !bounded_by_expiring(m0, t)
                    implies mm.token_timing.contains_key(t) && mm.token_timing[t] == m0.token_timing[t] by {
                assert forall|x: int| 0 <= x < expired@.len() implies !m0.bounded_of(#[trigger] expired@[x]@).contains(t) by {
                    assert(expiring(m0, expired@[x]@));
                }
            }
            assert(sessions_swept(m0, mm));
        }
        let ghost m2 = self@;
        let tkeys = self.token_timing.keys();
        let mut dead: Vec<String> = Vec::new();
        let mut j: usize = 0;
        while j < tkeys.len()
            invariant
                self.inv(),
                m2.wf(),
                0 <= j <= tkeys@.len(),
                forall|x: int| 0 <= x < tkeys@.len() ==> m2.token_timing.contains_key(#[trigger] tkeys@[x]@),
                forall|x: int, y: int|
                    0 <= x < tkeys@.len() && 0 <= y < tkeys@.len() && x != y ==> #[trigger] tkeys@[x]@
                        != #[trigger] tkeys@[y]@,
                self@ == (TableModel { token_timing: self@.token_timing, ..m2 }),
                self@.token_timing.dom() == m2.token_timing.dom(),
                forall|t: Seq<char>|
                    m0.token_timing.contains_key(t) && !m2.token_timing.contains_key(t) ==> #[trigger] m2.token_gone(t),
                sessions_swept(m0, m2),
                forall|x: int|
                    j <= x < tkeys@.len() ==> self@.token_timing[#[trigger] tkeys@[x]@]
                        == m2.token_timing[tkeys@[x]@],
                forall|x: int|
                    0 <= x < j && !token_expires(m2.token_timing[#[trigger] tkeys@[x]@])
                        ==> self@.token_timing[tkeys@[x]@] == token_chopped(m2.token_timing[tkeys@[x]@]),
                forall|x: int|
                    0 <= x < j && token_expires(m2.token_timing[#[trigger] tkeys@[x]@]) ==> exists|e: int|
                        0 <= e < dead@.len() && #[trigger] dead@[e]@ == tkeys@[x]@,
                forall|e: int|
                    0 <= e < dead@.len() ==> m2.token_timing.contains_key(#[trigger] dead@[e]@)
                        && token_expires(m2.token_timing[dead@[e]@]),
            decreases tkeys@.len() - j,
        {
            let key = tkeys[j].clone();
            let ghost dead_before = dead@;
            let info = match self.token_timing.get(&key) {
                Some(info) => *info,
                None => {
                    assert(false);
                    TokenTimingInfo::new(0)
                },
            };
            if info.is_detached {
                if info.time_left_after_detachment <= SESSION_CHOP_INTERVAL {
                    dead.push(key);
                } else {
                    let mut next = info;
                    next.time_left_after_detachment = info.time_left_after_detachment - SESSION_CHOP_INTERVAL;
                    self.token_timing.insert(key, next);
                }
            } else {
                if info.time_left <= SESSION_CHOP_INTERVAL {
                    dead.push(key);
                } else {
                    let mut next = info;
                    next.time_left = info.time_left - SESSION_CHOP_INTERVAL;
                    self.token_timing.insert(key, next);
                }
            }
            proof {
                lemma_wf_frame(m2, self@);
                assert forall|x: int|
                    0 <= x < j + 1 && token_expires(m2.token_timing[#[trigger] tkeys@[x]@]) implies exists|e: int|
                    0 <= e < dead@.len() && #[trigger] dead@[e]@ == tkeys@[x]@ by {
                    if x == j {
                        assert(dead@[dead@.len() - 1]@ == tkeys@[x]@);
                    } else {
                        let e = choose|e: int| 0 <= e < dead_before.len() && #[trigger] dead_before[e]@ == tkeys@[x]@;
                        assert(dead@[e] == dead_before[e]);
                    }
                }
            }
            assert(self@.token_timing.dom() =~= m2.token_timing.dom());
            j = j + 1;
        }
        proof {
            assert forall|k: Seq<char>| #[trigger] m2.token_timing.contains_key(k) && token_expires(m2.token_timing[k])
                implies exists|e: int| 0 <= e < dead@.len() && #[trigger] dead@[e]@ == k by {
                let x = choose|x: int| 0 <= x < tkeys@.len() && #[trigger] tkeys@[x]@ == k;
                assert(token_expires(m2.token_timing[tkeys@[x]@]));
            }
            assert forall|k: Seq<char>| #[trigger] m2.token_timing.contains_key(k) && !token_expires(m2.token_timing[k])
                implies self@.token_timing[k] == token_chopped(m2.token_timing[k]) by {
                let x = choose|x: int| 0 <= x < tkeys@.len() && #[trigger] tkeys@[x]@ == k;
            }
        }
        let ghost m3 = self@;
        assert forall|t: Seq<char>|
            m0.token_timing.contains_key(t) && !m2.token_timing.contains_key(t) implies #[trigger] m3.token_gone(t) by {
            assert(m2.token_gone(t));
        }
        let mut e: usize = 0;
        while e < dead.len()
            invariant
                self.inv(),
                0 <= e <= dead@.len(),
                forall|x: int| 0 <= x < e ==> self@.token_gone(#[trigger] dead@[x]@),
                self@.token_timing == m3.token_timing.remove_keys(prefix_set(dead@, e as int)),
                forall|t: Seq<char>| #[trigger] m2.token_timing.contains_key(t) ==> m0.token_timing.contains_key(t),
                forall|t: Seq<char>|
                    m0.token_timing.contains_key(t) && !m2.token_timing.contains_key(t) ==> #[trigger] self@.token_gone(t),
                self@.session_timing == m2.session_timing,
                forall|s: Seq<char>| #[trigger] m2.session_gone(s) ==> self@.session_gone(s),
                sessions_swept(m0, m2),
                forall|t: Seq<char>| #[trigger] m2.token_gone(t) ==> self@.token_gone(t),
                forall|c: Seq<char>|
                    #[trigger] m2.orphaned.contains(c) && !prefix_set(dead@, e as int).contains(c)
                        ==> self@.orphaned.contains(c),
                forall|x: int|
                    0 <= x < dead@.len() ==> m2.token_timing.contains_key(#[trigger] dead@[x]@)
                        && token_expires(m2.token_timing[dead@[x]@]),
                m2.calls.len() <= self@.calls.len(),
                forall|x: int| 0 <= x < m2.calls.len() ==> #[trigger] self@.calls[x] == m2.calls[x],
                forall|x: int| m2.calls.len() <= x < self@.calls.len() ==> is_delete(#[trigger] self@.calls[x]),
                forall|x: int|
                    #![trigger dead@[x]]
                    0 <= x < e ==> called_since(
                        self@.calls,
                        m2.calls.len() as int,
                        StorageCall::DelKeyValue { key: dead@[x]@ },
                    ),
            decreases dead@.len() - e,
        {
            let ghost me = self@;
            self.destroy_token(&dead[e]);
            proof {
                assert forall|t: Seq<char>|
                    m0.token_timing.contains_key(t) && !m2.token_timing.contains_key(t) implies #[trigger] self@.token_gone(t) by {
                    assert(me.token_gone(t));
                }
                assert forall|x: int| 0 <= x < e + 1 implies self@.token_gone(#[trigger] dead@[x]@) by {
                    if x < e {
                        assert(me.token_gone(dead@[x]@));
                    }
                }
                assert forall|s2: Seq<char>| #[trigger] m2.session_gone(s2) implies self@.session_gone(s2) by {
                    assert(me.session_gone(s2));
                }
                assert forall|t: Seq<char>| #[trigger] m2.token_gone(t) implies self@.token_gone(t) by {
                    assert(me.token_gone(t));
                }
                assert forall|c: Seq<char>|
                    #[trigger] m2.orphaned.contains(c) && !prefix_set(dead@, e + 1).contains(c)
                        implies self@.orphaned.contains(c) by {
                    if prefix_set(dead@, e as int).contains(c) {
                        let x = choose|x: int| 0 <= x < e && #[trigger] dead@[x]@ == c;
                        assert(prefix_set(dead@, e + 1).contains(c));
                    }
                    if c == dead@[e as int]@ {
                        assert(prefix_set(dead@, e + 1).contains(c));
                    }
                }
                assert forall|x: int| 0 <= x < me.calls.len() implies #[trigger] self@.calls[x] == me.calls[x] by {
                }
                assert forall|x: int|
                    #![trigger dead@[x]]
                    0 <= x < e + 1 implies called_since(
                        self@.calls,
                        m2.calls.len() as int,
                        StorageCall::DelKeyValue { key: dead@[x]@ },
                    ) by {
                    if x < e {
                        let i0 = choose|i0: int| m2.calls.len() <= i0 < me.calls.len() && me.calls[i0] == StorageCall::DelKeyValue { key: dead@[x]@ };
                        assert(self@.calls[i0] == me.calls[i0]);
                    } else {
                        assert(self@.calls[me.calls.len() as int] == StorageCall::DelKeyValue { key: dead@[x]@ });
                    }
                }
                lemma_prefix_step(dead@, e as int);
                assert(self@.token_timing =~= m3.token_timing.remove_keys(prefix_set(dead@, e + 1)));
            }
            e = e + 1;
        }
        proof {
            assert forall|k: Seq<char>| #[trigger] m2.token_timing.contains_key(k) && token_expires(m2.token_timing[k])
                implies self@.token_gone(k) by {
                let x = choose|x: int| 0 <= x < dead@.len() && #[trigger] dead@[x]@ == k;
            }
            assert forall|k: Seq<char>| #[trigger] m2.token_timing.contains_key(k) && !token_expires(m2.token_timing[k])
                implies !prefix_set(dead@, dead@.len() as int).contains(k) by {
                if prefix_set(dead@, dead@.len() as int).contains(k) {
                    let x = choose|x: int| 0 <= x < dead@.len() && #[trigger] dead@[x]@ == k;
                }
            }
            let mf = self@;
            let n0 = m0.calls.len() as int;
            assert forall|x: int| 0 <= x < n0 implies #[trigger] mf.calls[x] == m0.calls[x] by {
                assert(m2.calls[x] == m0.calls[x]);
            }
            assert forall|x: int| n0 <= x < mf.calls.len() implies is_delete(#[trigger] mf.calls[x]) by {
                if x < m2.calls.len() {
                    assert(is_delete(m2.calls[x]));
                }
            }
            assert forall|c: StorageCall| #[trigger] called_since(m2.calls, n0, c) implies called_since(mf.calls, n0, c) by {
                let i0 = choose|i0: int| n0 <= i0 < m2.calls.len() && m2.calls[i0] == c;
                assert(mf.calls[i0] == m2.calls[i0]);
            }
            assert forall|s2: Seq<char>, b2: Seq<char>|
                expiring(m0, s2) && #[trigger] m0.bounded_of(s2).contains(b2) implies mf.token_gone(b2)
                && called_since(mf.calls, n0, StorageCall::DelKeyValue { key: b2 }) by {
                assert(m2.token_gone(b2));
                assert(called_since(m2.calls, n0, StorageCall::DelKeyValue { key: b2 }));
            }
            assert forall|s2: Seq<char>| #[trigger] expiring(m0, s2) implies called_since(
                mf.calls,
                n0,
                StorageCall::DelSessionKeyValue { session: s2 },
            ) by {
                assert(called_since(m2.calls, n0, StorageCall::DelSessionKeyValue { session: s2 }));
            }
            assert forall|s2: Seq<char>, c2: Seq<char>|
                expiring(m0, s2) && #[trigger] m0.carried_of(s2).contains(c2) && !(m0.token_timing.contains_key(c2)
                    && token_expires(m0.token_timing[c2])) implies mf.orphaned.contains(c2) by {
                assert(m2.orphaned.contains(c2));
                if prefix_set(dead@, dead@.len() as int).contains(c2) {
                    let x = choose|x: int| 0 <= x < dead@.len() && #[trigger] dead@[x]@ == c2;
                    assert(m2.token_timing.contains_key(c2));
                }
            }
            assert forall|t: Seq<char>| #[trigger] m0.token_timing.contains_key(t) && token_expires(m0.token_timing[t])
                implies mf.token_gone(t) && called_since(mf.calls, n0, StorageCall::DelKeyValue { key: t }) by {
                if m2.token_timing.contains_key(t) {
                    let x = choose|x: int| 0 <= x < dead@.len() && #[trigger] dead@[x]@ == t;
                    let i0 = choose|i0: int| m2.calls.len() <= i0 < mf.calls.len() && mf.calls[i0] == StorageCall::DelKeyValue { key: dead@[x]@ };
                } else {
                    let s2 = choose|s2: Seq<char>| expiring(m0, s2) && #[trigger] m0.bounded_of(s2).contains(t);
                    assert(called_since(m2.calls, n0, StorageCall::DelKeyValue { key: t }));
                }
            }
            assert forall|t: Seq<char>| #[trigger] m0.token_timing.contains_key(t) && !token_expires(m0.token_timing[t])
                && !bounded_by_expiring(m0, t) implies mf.token_timing.contains_key(t)
                && mf.token_timing[t] == token_chopped(m0.token_timing[t]) by {
                assert(m2.token_timing.contains_key(t));
                assert(!prefix_set(dead@, dead@.len() as int).contains(t));
            }
        }
    }

    /// Replaces the token factory.
    fn set_token_creator(&mut self, token_creator: M)
        ensures
            final(self)@ == old(self)@,
            final(self).creator() == token_creator,
    {
        self.token_creator = token_creator;
    }

    /// A fresh token from the factory: a session token for the session
    /// prefix, else a transition token; its text starts with the prefix.
    fn create_token(&self, prefix: Option<String>) -> (r: Token)
        ensures
            fits_prefix(
                match prefix {
                    Some(p) => Some(p@),
                    None => None,
                },
                r,
            ),
            self.creator().makes(
                match prefix {
                    Some(p) => Some(p@),
                    None => None,
                },
                r,
            ),
    {
        match prefix {
            Some(prfx) => self.token_creator.make_token(Some(prfx.as_str())),
            None => self.token_creator.make_token(None),
        }
    }

    /// Sets the timeout that new sessions start from.
    fn set_general_session_timeout(&mut self, timeout: i32)
        ensures
            final(self)@ == (TableModel { general_session_timeout: timeout, ..old(self)@ }),
    {
        self.general_session_timeout = timeout;
    }

    /// Gives a session a new allotted time, and restarts its main countdown
    /// from it; a shared record is mirrored to storage.
    fn set_session_timeout(&mut self, session_token: &SessionToken, timeout: i32)
        ensures
            old(self)@.session_timing.contains_key(session_token@) ==> {
                let info = SessionTimingInfo {
                    time_allotted: timeout,
                    time_left: timeout,
                    ..old(self)@.session_timing[session_token@]
                };
                final(self)@ == (TableModel {
                    session_timing: old(self)@.session_timing.insert(session_token@, info),
                    ..old(self)@
                }).persisted(session_token@, info)
            },
            !old(self)@.session_timing.contains_key(session_token@) ==> final(self)@ == old(self)@,
    {
        match self.session_timing.get(session_token) {
            Some(s_time_info) => {
                let mut info = *s_time_info;
                info.time_allotted = timeout;
                info.time_left = timeout;
                self.session_timing.insert(session_token.clone(), info);
                assert(self@ =~= TableModel {
                    session_timing: old(self)@.session_timing.insert(session_token@, info),
                    ..old(self)@
                });
                proof {
                    lemma_wf_frame(old(self)@, self@);
                }
                self.persist_session_timing(session_token, &info);
            },
            None => {},
        }
    }

    /// The time allotted to a session.
    fn get_session_timeout(&mut self, session_token: &SessionToken) -> (r: Option<i32>)
        ensures
            final(self)@ == old(self)@,
            r == (if old(self)@.session_timing.contains_key(session_token@) {
                Some(old(self)@.session_timing[session_token@].time_allotted)
            } else {
                None
            }),
    {
        match self.session_timing.get(session_token) {
            Some(s_time_info) => Some(s_time_info.time_allotted),
            None => None,
        }
    }

    /// The time a session has left on its main countdown.
    fn get_session_time_left(&mut self, session_token: &SessionToken) -> (r: Option<i32>)
        ensures
            final(self)@ == old(self)@,
            r == (if old(self)@.session_timing.contains_key(session_token@) {
                Some(old(self)@.session_timing[session_token@].time_left)
            } else {
                None
            }),
    {
        match self.session_timing.get(session_token) {
            Some(s_time_info) => Some(s_time_info.time_left),
            None => None,
        }
    }

    /// Sets the timeout that new tokens start from.
    fn set_general_token_timeout(&mut self, timeout: i32)
        ensures
            final(self)@ == (TableModel { general_token_timeout: timeout, ..old(self)@ }),
    {
        self.general_token_timeout = timeout;
    }

    /// Sets the time a token has left after detachment.
    fn set_disownment_token_timeout(&mut self, t_token: &TransitionToken, timeout: i32)
        ensures
            old(self)@.token_timing.contains_key(t_token@) ==> final(self)@ == (TableModel {
                token_timing: old(self)@.token_timing.insert(
                    t_token@,
                    TokenTimingInfo {
                        time_left_after_detachment: timeout,
                        ..old(self)@.token_timing[t_token@]
                    },
                ),
                ..old(self)@
            }),
            !old(self)@.token_timing.contains_key(t_token@) ==> final(self)@ == old(self)@,
    {
        match self.token_timing.get(t_token) {
            Some(time_info) => {
                let mut info = *time_info;
                info.time_left_after_detachment = timeout;
                self.token_timing.insert(t_token.clone(), info);
                assert(self@ =~= TableModel {
                    token_timing: old(self)@.token_timing.insert(t_token@, info),
                    ..old(self)@
                });
            },
            None => {},
        }
    }

    /// Gives a token a new allotted time, and restarts its main countdown
    /// from it.
    fn set_token_timeout(&mut self, t_token: &TransitionToken, timeout: i32)
        ensures
            old(self)@.token_timing.contains_key(t_token@) ==> final(self)@ == (TableModel {
                token_timing: old(self)@.token_timing.insert(
                    t_token@,
                    TokenTimingInfo {
                        time_allotted: timeout,
                        time_left: timeout,
                        ..old(self)@.token_timing[t_token@]
                    },
                ),
                ..old(self)@
            }),
            !old(self)@.token_timing.contains_key(t_token@) ==> final(self)@ == old(self)@,
    {
        match self.token_timing.get(t_token) {
            Some(time_info) => {
                let mut info = *time_info;
                info.time_allotted = timeout;
                info.time_left = timeout;
                self.token_timing.insert(t_token.clone(), info);
                assert(self@ =~= TableModel {
                    token_timing: old(self)@.token_timing.insert(t_token@, info),
                    ..old(self)@
                });
            },
            None => {},
        }
    }

    /// The time allotted to a token.
    fn get_token_timeout(&mut self, t_token: &TransitionToken) -> (r: Option<i32>)
        ensures
            final(self)@ == old(self)@,
            r == (if old(self)@.token_timing.contains_key(t_token@) {
                Some(old(self)@.token_timing[t_token@].time_allotted)
            } else {
                None
            }),
    {
        match self.token_timing.get(t_token) {
            Some(time_info) => Some(time_info.time_allotted),
            None => None,
        }
    }

    /// The time a token has left on its main countdown.
    fn get_token_time_left(&mut self, t_token: &TransitionToken) -> (r: Option<i32>)
        ensures
            final(self)@ == old(self)@,
            r == (if old(self)@.token_timing.contains_key(t_token@) {
                Some(old(self)@.token_timing[t_token@].time_left)
            } else {
                None
            }),
    {
        match self.token_timing.get(t_token) {
            Some(time_info) => Some(time_info.time_left),
            None => None,
        }
    }

    /// Puts a transferable token up for sale, at `amount` where one is given.
    fn set_token_sellable(&mut self, t_token: &TransitionToken, amount: Option<i64>)
        ensures
            old(self)@.transferable.contains_key(t_token@) ==> final(self)@ == (TableModel {
                transferable: old(self)@.transferable.insert(
                    t_token@,
                    TransferView {
                        sellable: true,
                        price: match amount {
                            Some(a) => a,
                            None => old(self)@.transferable[t_token@].price,
                        },
                        ..old(self)@.transferable[t_token@]
                    },
                ),
                ..old(self)@
            }),
            !old(self)@.transferable.contains_key(t_token@) ==> final(self)@ == old(self)@,
    {
        match self.all_transferable_tokens.remove(t_token) {
            Some(tinf) => {
                let mut tinf = tinf;
                if let Some(amt) = amount {
                    tinf.price = amt;
                }
                tinf.sellable = true;
                self.all_transferable_tokens.insert(t_token.clone(), tinf);
                assert(self@ =~= TableModel {
                    transferable: old(self)@.transferable.insert(t_token@, tinf@),
                    ..old(self)@
                });
            },
            None => {
                assert(self@ =~= old(self)@);
            },
        }
        proof {
            lemma_wf_frame(old(self)@, self@);
        }
    }

    /// Takes a transferable token off sale; its price stays.
    fn unset_token_sellable(&mut self, t_token: &TransitionToken)
        ensures
            old(self)@.transferable.contains_key(t_token@) ==> final(self)@ == (TableModel {
                transferable: old(self)@.transferable.insert(
                    t_token@,
                    TransferView { sellable: false, ..old(self)@.transferable[t_token@] },
                ),
                ..old(self)@
            }),
            !old(self)@.transferable.contains_key(t_token@) ==> final(self)@ == old(self)@,
    {
        match self.all_transferable_tokens.remove(t_token) {
            Some(tinf) => {
                let mut tinf = tinf;
                tinf.sellable = false;
                self.all_transferable_tokens.insert(t_token.clone(), tinf);
                assert(self@ =~= TableModel {
                    transferable: old(self)@.transferable.insert(t_token@, tinf@),
                    ..old(self)@
                });
            },
            None => {
                assert(self@ =~= old(self)@);
            },
        }
        proof {
            lemma_wf_frame(old(self)@, self@);
        }
    }

    /// Rebuilds a session's countdowns from the record that storage holds
    /// under the session token. Storage is asked for that text first; where
    /// there is one and the session has a verifier, storage is asked whether
    /// `ownership_key` matches it. Where it does and the text holds a complete
    /// record, the record and the verifier `owner_verifier` replace the ones
    /// kept here, and the result is true; else nothing else changes.
    fn reload_session_info(
        &mut self,
        session_token: &SessionToken,
        ownership_key: &Ucwid,
        owner_verifier: crate::records::Hash,
    ) -> (r: bool)
        ensures
            ({
                let n = old(self)@.calls.len() as int;
                let found = found_of(final(self)@.calls[n]);
                let asked = found is Some && old(self)@.verifiers.contains_key(session_token@);
                let answer = answer_of(final(self)@.calls[n + 1]);
                let rec = stored_session_record(found->0);
                let get = StorageCall::GetKeyValue { key: session_token@, found };
                &&& asked ==> final(self)@.calls == old(self)@.calls.push(get).push(
                    StorageCall::CheckHash {
                        verifier: old(self)@.verifiers[session_token@],
                        owner: ownership_key@,
                        answer,
                    },
                )
                &&& !asked ==> final(self)@.calls == old(self)@.calls.push(get)
                &&& r == (asked && answer && rec is Some)
                &&& r ==> final(self)@ == (TableModel {
                    session_timing: old(self)@.session_timing.insert(session_token@, rec->0),
                    verifiers: old(self)@.verifiers.insert(session_token@, owner_verifier@),
                    calls: final(self)@.calls,
                    ..old(self)@
                })
                &&& !r ==> final(self)@ == (TableModel { calls: final(self)@.calls, ..old(self)@ })
            }),
    {
        let ghost m0 = self@;
        let data = self.store_get_key_value(session_token);
        let ghost m1 = self@;
        assert(found_of(m1.calls[m0.calls.len() as int]) == opt_view(data));
        let data = match data {
            Some(data) => data,
            None => {
                assert(self@ =~= TableModel { calls: self@.calls, ..m0 });
                return false;
            },
        };
        let truth = match self.active_session(session_token, ownership_key) {
            Some(truth) => truth,
            None => false,
        };
        let ghost m2 = self@;
        assert(m2.calls.subrange(0, m1.calls.len() as int) =~= m1.calls);
        assert(m2.calls[m0.calls.len() as int] == m1.calls[m0.calls.len() as int]);
        if !truth {
            assert(self@ =~= TableModel { calls: self@.calls, ..m0 });
            return false;
        }
        let mut s_info = SessionTimingInfo::new(self.general_session_timeout);
        if !s_info.set_all(data.as_str()) {
            assert(self@ =~= TableModel { calls: self@.calls, ..m0 });
            return false;
        }
        self.session_timing.insert(session_token.clone(), s_info);
        self.session_checking_tokens.insert(session_token.clone(), owner_verifier);
        proof {
            lemma_wf_frame(m2, self@);
        }
        assert(self@ =~= TableModel {
            session_timing: m0.session_timing.insert(session_token@, s_info),
            verifiers: m0.verifiers.insert(session_token@, self@.verifiers[session_token@]),
            calls: self@.calls,
            ..m0
        });
        true
    }

    /// Rebuilds a token's countdowns from the record that storage holds under
    /// the token; where there is none, or it is not a complete record,
    /// nothing but the lookup happens.
    fn reload_token_info(&mut self, t_token: &TransitionToken)
        ensures
            ({
                let found = found_of(final(self)@.calls[old(self)@.calls.len() as int]);
                let rec = stored_token_record(found->0);
                let m = old(self)@.logged(StorageCall::GetKeyValue { key: t_token@, found });
                &&& (found is Some && rec is Some) ==> final(self)@ == (TableModel {
                    token_timing: old(self)@.token_timing.insert(t_token@, rec->0),
                    ..m
                })
                &&& !(found is Some && rec is Some) ==> final(self)@ == m
            }),
    {
        let ghost m0 = self@;
        let data = self.store_get_key_value(t_token);
        let ghost m1 = self@;
        assert(found_of(m1.calls[m0.calls.len() as int]) == opt_view(data));
        let data = match data {
            Some(data) => data,
            None => {
                return;
            },
        };
        let mut t_info = TokenTimingInfo::new(self.general_token_timeout);
        if t_info.set_all(data.as_str()) {
            self.token_timing.insert(t_token.clone(), t_info);
            proof {
                lemma_wf_frame(m1, self@);
            }
            assert(self@ =~= TableModel {
                token_timing: m0.token_timing.insert(t_token@, t_info),
                ..m1
            });
        }
    }

    /// The tokens that a session carries.
    fn list_transferable_tokens(&mut self, session_token: &SessionToken) -> (r: Vec<TransitionToken>)
        ensures
            final(self)@ == old(self)@,
            lists(r@, old(self)@.carried_of(session_token@)),
    {
        self.carried_tokens(session_token)
    }

    /// The transferable tokens that are for sale.
    fn list_sellable_tokens(&mut self) -> (r: Vec<TransitionToken>)
        ensures
            final(self)@ == old(self)@,
            lists(r@, old(self)@.sellable()),
    {
        let ghost m = self@;
        let ghost want = m.sellable();
        let keys = self.all_transferable_tokens.keys();
        let mut v: Vec<TransitionToken> = Vec::new();
        let mut i: usize = 0;
        while i < keys.len()
            invariant
                self.inv(),
                self@ == m,
                want == m.sellable(),
                0 <= i <= keys@.len(),
                forall|x: int, y: int|
                    0 <= x < keys@.len() && 0 <= y < keys@.len() && x != y ==> #[trigger] keys@[x]@
                        != #[trigger] keys@[y]@,
                forall|x: int| 0 <= x < keys@.len() ==> m.transferable.contains_key(#[trigger] keys@[x]@),
                forall|x: int, y: int|
                    0 <= x < v@.len() && 0 <= y < v@.len() && x != y ==> #[trigger] v@[x]@ != #[trigger] v@[y]@,
                forall|x: int| 0 <= x < v@.len() ==> want.contains(#[trigger] v@[x]@),
                forall|x: int| 0 <= x < v@.len() ==> prefix_set(keys@, i as int).contains(#[trigger] v@[x]@),
                forall|x: int|
                    0 <= x < i && want.contains(#[trigger] keys@[x]@) ==> exists|y: int|
                        0 <= y < v@.len() && #[trigger] v@[y]@ == keys@[x]@,
            decreases keys@.len() - i,
        {
            let ghost v_before = v@;
            let sellable = match self.all_transferable_tokens.get(&keys[i]) {
                Some(t_info) => t_info.sellable,
                None => false,
            };
            assert(m.transferable.contains_key(keys@[i as int]@));
            assert(sellable == want.contains(keys@[i as int]@));
            if sellable {
                v.push(keys[i].clone());
            }
            proof {
                lemma_prefix_step(keys@, i as int);
                assert forall|x: int, y: int|
                    0 <= x < v@.len() && 0 <= y < v@.len() && x != y implies #[trigger] v@[x]@ != #[trigger] v@[y]@ by {
                    if sellable && (x == v@.len() - 1 || y == v@.len() - 1) {
                        let other = if x == v@.len() - 1 { y } else { x };
                        assert(prefix_set(keys@, i as int).contains(v_before[other]@));
                        let z = choose|z: int| 0 <= z < i && #[trigger] keys@[z]@ == v_before[other]@;
                    }
                }
                assert forall|x: int|
                    0 <= x < i + 1 && want.contains(#[trigger] keys@[x]@) implies exists|y: int|
                    0 <= y < v@.len() && #[trigger] v@[y]@ == keys@[x]@ by {
                    if x == i {
                        assert(v@[v@.len() - 1]@ == keys@[x]@);
                    } else {
                        let y = choose|y: int| 0 <= y < v_before.len() && #[trigger] v_before[y]@ == keys@[x]@;
                        assert(v@[y] == v_before[y]);
                    }
                }
                assert forall|x: int| 0 <= x < v@.len() implies prefix_set(keys@, i + 1).contains(#[trigger] v@[x]@) by {
                    if x < v_before.len() {
                        assert(v@[x] == v_before[x]);
                    }
                }
            }
            i = i + 1;
        }
        proof {
            assert forall|t: Seq<char>| #[trigger] want.contains(t) implies exists|y: int|
                0 <= y < v@.len() && #[trigger] v@[y]@ == t by {
                let x = choose|x: int| 0 <= x < keys@.len() && #[trigger] keys@[x]@ == t;
                assert(want.contains(keys@[x]@));
            }
        }
        v
    }

    /// The orphaned tokens.
    fn list_unassigned_tokens(&mut self) -> (r: Vec<TransitionToken>)
        ensures
            final(self)@ == old(self)@,
            lists(r@, old(self)@.orphaned),
    {
        self.orphaned_tokens.to_vec()
    }

    /// The detached sessions.
    fn list_detached_sessions(&mut self) -> (r: Vec<SessionToken>)
        ensures
            final(self)@ == old(self)@,
            lists(r@, old(self)@.detached),
    {
        self.detached_sessions.to_vec()
    }
}

} // verus!
