use vstd::prelude::*;

use crate::records::{SessionTimingInfo, TokenTimingInfo, SESSION_CHOP_INTERVAL};
use crate::table::{
    session_chopped, session_expires, session_remaining, token_chopped, token_expires,
    token_remaining, StorageCall, TableModel,
};

verus! {

/// No bounded token is in the bounded sets of two different sessions.
pub proof fn lemma_bounded_exclusive(m: TableModel, s1: Seq<char>, s2: Seq<char>, t: Seq<char>)
    requires
        m.wf(),
        s1 != s2,
    ensures
        !(m.bounded_of(s1).contains(t) && m.bounded_of(s2).contains(t)),
{
    if m.bounded_of(s1).contains(t) && m.bounded_of(s2).contains(t) {
        assert(m.session_tokens[s1].bounded.contains(t));
        assert(m.session_tokens[s2].bounded.contains(t));
    }
}

/// Destroying a session orphans each token it carried, and keeps that
/// token's value.
pub proof fn lemma_orphans_keep_values(m: TableModel, s: Seq<char>, t: Seq<char>)
    requires
        m.wf(),
        m.carried_of(s).contains(t),
    ensures
        m.without_session(s).orphaned.contains(t),
        m.without_session(s).values.contains_key(t) == m.values.contains_key(t),
        m.values.contains_key(t) ==> m.without_session(s).values[t] == m.values[t],
{
    assert(m.session_tokens[s].carried.contains(t));
    assert(!m.bounded_of(s).contains(t));
}

/// Tearing down a session leaves the stored value of each token it carried
/// in storage.
pub proof fn lemma_teardown_keeps_orphan_values(
    m: TableModel,
    s: Seq<char>,
    c: Seq<char>,
    added: Seq<StorageCall>,
)
    requires
        m.wf(),
        m.carried_of(s).contains(c),
        c != s,
        m.teardown_calls(s, added),
    ensures
        !added.contains(StorageCall::DelKeyValue { key: c }),
{
    if added.contains(StorageCall::DelKeyValue { key: c }) {
        let i = choose|i: int| 0 <= i < added.len() && added[i] == StorageCall::DelKeyValue { key: c };
        assert(i != added.len() - 1);
        assert(m.session_tokens[s].carried.contains(c));
        assert(m.bounded_of(s).contains(c));
        assert(m.session_tokens[s].bounded.contains(c));
    }
}

/// A destroyed token is in no listing: no session carries it, it is not for
/// sale, and it is not orphaned.
pub proof fn lemma_gone_token_unlisted(m: TableModel, t: Seq<char>, s: Seq<char>)
    requires
        m.wf(),
        m.token_gone(t),
    ensures
        !m.carried_of(s).contains(t),
        !m.sellable().contains(t),
        !m.orphaned.contains(t),
{
    if m.carried_of(s).contains(t) {
        assert(m.session_tokens[s].carried.contains(t));
    }
}

/// A destroyed session is in no listing: it carries nothing and is not
/// detached.
pub proof fn lemma_gone_session_unlisted(m: TableModel, s: Seq<char>)
    requires
        m.session_gone(s),
    ensures
        m.carried_of(s) == Set::<Seq<char>>::empty(),
        !m.detached.contains(s),
{
}

/// Each sweep that a session survives takes `SESSION_CHOP_INTERVAL` off the
/// countdown that runs for it, so repeated sweeps drive it to expiry.
pub proof fn lemma_session_countdown(i: SessionTimingInfo)
    requires
        !session_expires(i),
    ensures
        session_chopped(i).is_detached == i.is_detached,
        session_remaining(session_chopped(i)) == session_remaining(i) - SESSION_CHOP_INTERVAL,
        session_remaining(session_chopped(i)) > 0,
{
}

/// Each sweep that a token survives takes `SESSION_CHOP_INTERVAL` off the
/// countdown that runs for it, so repeated sweeps drive it to expiry.
pub proof fn lemma_token_countdown(i: TokenTimingInfo)
    requires
        !token_expires(i),
    ensures
        token_chopped(i).is_detached == i.is_detached,
        token_remaining(token_chopped(i)) == token_remaining(i) - SESSION_CHOP_INTERVAL,
        token_remaining(token_chopped(i)) > 0,
{
}

/// A value stored under a token is the value that the token then has, which
/// is what a lookup of the token returns; the last call on storage writes
/// that same value under the token, for a later lookup to find.
pub proof fn lemma_value_round_trip(m: TableModel, t: Seq<char>, v: Seq<char>)
    ensures
        m.with_value(t, v).values.contains_key(t),
        m.with_value(t, v).values[t] == v,
        m.with_value(t, v).calls.last() == (StorageCall::SetKeyValue { key: t, value: v }),
{
}

} // verus!
