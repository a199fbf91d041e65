use vstd::prelude::*;

use crate::strmap::{StrSet, Valid};
use crate::text::{append_bool, append_int, bool_text, int_text};

verus! {

/// The owner identity that a caller supplies.
pub type Ucwid = String;

/// A session token.
pub type SessionToken = String;

/// A transition token: one capability or asset.
pub type TransitionToken = String;

/// The verifier that storage returns for an owner secret.
pub type Hash = String;

/// A token of either class, as the token factory hands it out.
#[derive(Debug, Clone, PartialEq, Eq, Hash)]
pub enum Token {
    SessionToken(SessionToken),
    TransitionToken(TransitionToken),
}

/// A token value, given as text or as a structured value.
pub enum StructOrString<T> {
    TypeStr(String),
    TypeGen(T),
}

/// The prefix that marks a new token as a session token.
pub const SESSION_PREFIX: &'static str = "user+";

/// One minute, in the milliseconds that all timeouts count.
pub const MINUTES: i32 = 1000 * 60;

/// The timeout that new sessions and tokens start from.
pub const GENERAL_DEFAULT_SESSION_TIMEOUT: i32 = 60 * MINUTES;

/// The time that one sweep takes off every running countdown.
pub const SESSION_CHOP_INTERVAL: i32 = 500;

/// Construction and reset of a session's token sets.
pub trait SessionTokenTraits: Sized {
    fn new() -> Self;

    fn clear(&mut self);
}

/// The transition tokens that belong to one session: the bounded ones die
/// with it, the carried ones outlive it.
pub struct SessionTokenSets {
    pub session_bounded: StrSet,
    pub session_carries: StrSet,
}

/// The abstract contents of a session's token sets.
pub struct TokenSetsView {
    pub bounded: Set<Seq<char>>,
    pub carried: Set<Seq<char>>,
}

impl View for SessionTokenSets {
    type V = TokenSetsView;

    open spec fn view(&self) -> TokenSetsView {
        TokenSetsView { bounded: self.session_bounded@, carried: self.session_carries@ }
    }
}

impl Valid for SessionTokenSets {
    open spec fn valid(&self) -> bool {
        self.session_bounded.wf() && self.session_carries.wf()
    }
}

impl SessionTokenTraits for SessionTokenSets {
    fn new() -> (r: SessionTokenSets)
        ensures
            r.valid(),
            r@.bounded == Set::<Seq<char>>::empty(),
            r@.carried == Set::<Seq<char>>::empty(),
    {
        SessionTokenSets { session_bounded: StrSet::new(), session_carries: StrSet::new() }
    }

    fn clear(&mut self)
        ensures
            final(self).valid(),
            final(self)@.bounded == Set::<Seq<char>>::empty(),
            final(self)@.carried == Set::<Seq<char>>::empty(),
    {
        self.session_bounded.clear();
        self.session_carries.clear();
    }
}

/// What makes a transition token transferable: its current owner, and whether
/// and at what price (in the smallest unit of the currency) it is for sale.
pub struct TransferableTokenInfo {
    pub sellable: bool,
    pub price: i64,
    pub owner: Ucwid,
}

/// The abstract contents of a transfer record.
pub struct TransferView {
    pub sellable: bool,
    pub price: i64,
    pub owner: Seq<char>,
}

impl View for TransferableTokenInfo {
    type V = TransferView;

    open spec fn view(&self) -> TransferView {
        TransferView { sellable: self.sellable, price: self.price, owner: self.owner@ }
    }
}

impl TransferableTokenInfo {
    /// A record for `owner`, not for sale, at price zero.
    pub fn new(owner: Ucwid) -> (r: Self)
        ensures
            r@ == (TransferView { sellable: false, price: 0, owner: owner@ }),
    {
        TransferableTokenInfo { sellable: false, price: 0, owner }
    }
}

/// The countdowns of a session. A detached session counts down
/// `time_left_after_detachment`, an attached one `time_left`. A shared record
/// is mirrored to storage whenever it changes.
#[derive(Clone, Copy)]
pub struct SessionTimingInfo {
    pub detachment_allowed: bool,
    pub is_detached: bool,
    pub time_left: i32,
    pub time_left_after_detachment: i32,
    pub time_allotted: i32,
    pub shared: bool,
}

/// The countdowns of a transition token.
#[derive(Clone, Copy)]
pub struct TokenTimingInfo {
    pub detachment_allowed: bool,
    pub is_detached: bool,
    pub time_left: i32,
    pub time_left_after_detachment: i32,
    pub time_allotted: i32,
}

impl Valid for TransferableTokenInfo {
    open spec fn valid(&self) -> bool {
        true
    }
}

impl Valid for SessionTimingInfo {
    open spec fn valid(&self) -> bool {
        true
    }
}

impl Valid for TokenTimingInfo {
    open spec fn valid(&self) -> bool {
        true
    }
}

impl View for SessionTimingInfo {
    type V = SessionTimingInfo;

    open spec fn view(&self) -> SessionTimingInfo {
        *self
    }
}

impl View for TokenTimingInfo {
    type V = TokenTimingInfo;

    open spec fn view(&self) -> TokenTimingInfo {
        *self
    }
}

impl SessionTimingInfo {
    /// A fresh, attached, unshared record whose countdowns all start at `timeout`.
    pub open spec fn fresh(timeout: i32) -> SessionTimingInfo {
        SessionTimingInfo {
            detachment_allowed: false,
            is_detached: false,
            time_left: timeout,
            time_left_after_detachment: timeout,
            time_allotted: timeout,
            shared: false,
        }
    }

    pub fn new(timeout: i32) -> (r: Self)
        ensures
            r == SessionTimingInfo::fresh(timeout),
    {
        SessionTimingInfo {
            detachment_allowed: false,
            is_detached: false,
            time_left: timeout,
            time_left_after_detachment: timeout,
            time_allotted: timeout,
            shared: false,
        }
    }

    /// The record as a compact JSON object, one member per field, in
    /// declaration order.
    pub open spec fn json_text(self) -> Seq<char> {
        "{\"_detachment_allowed\":"@ + bool_text(self.detachment_allowed) + ",\"_is_detached\":"@
            + bool_text(self.is_detached) + ",\"_time_left\":"@ + int_text(self.time_left as int)
            + ",\"_time_left_after_detachment\":"@ + int_text(
            self.time_left_after_detachment as int,
        ) + ",\"_time_allotted\":"@ + int_text(self.time_allotted as int) + ",\"_shared\":"@
            + bool_text(self.shared) + "}"@
    }

    pub fn to_json(&self) -> (r: String)
        ensures
            r@ == self.json_text(),
    {
        let s = String::new();
        let s = s.concat("{\"_detachment_allowed\":");
        let s = append_bool(s, self.detachment_allowed);
        let s = s.concat(",\"_is_detached\":");
        let s = append_bool(s, self.is_detached);
        let s = s.concat(",\"_time_left\":");
        let s = append_int(s, self.time_left);
        let s = s.concat(",\"_time_left_after_detachment\":");
        let s = append_int(s, self.time_left_after_detachment);
        let s = s.concat(",\"_time_allotted\":");
        let s = append_int(s, self.time_allotted);
        let s = s.concat(",\"_shared\":");
        let s = append_bool(s, self.shared);
        let s = s.concat("}");
        assert(s@ =~= self.json_text());
        s
    }
}

impl TokenTimingInfo {
    /// A fresh, attached record whose countdowns all start at `timeout`.
    pub open spec fn fresh(timeout: i32) -> TokenTimingInfo {
        TokenTimingInfo {
            detachment_allowed: false,
            is_detached: false,
            time_left: timeout,
            time_left_after_detachment: timeout,
            time_allotted: timeout,
        }
    }

    pub fn new(timeout: i32) -> (r: Self)
        ensures
            r == TokenTimingInfo::fresh(timeout),
    {
        TokenTimingInfo {
            detachment_allowed: false,
            is_detached: false,
            time_left: timeout,
            time_left_after_detachment: timeout,
            time_allotted: timeout,
        }
    }
}

} // verus!
