use vstd::prelude::*;

use serde_json::Value;

use crate::records::{SessionTimingInfo, TokenTimingInfo, TransferView, TransferableTokenInfo};

verus! {

#[verifier::external_type_specification]
#[verifier::external_body]
pub struct ExValue(serde_json::Value);

/// The boolean held by member `key` of the JSON object in `text`, if any.
pub uninterp spec fn json_bool_at(text: Seq<char>, key: Seq<char>) -> Option<bool>;

/// The integer held by member `key` of the JSON object in `text`, if any.
pub uninterp spec fn json_int_at(text: Seq<char>, key: Seq<char>) -> Option<i64>;

/// The string held by member `key` of the JSON object in `text`, if any.
pub uninterp spec fn json_str_at(text: Seq<char>, key: Seq<char>) -> Option<Seq<char>>;

/// Relies on serde_json: `from_str` parses the text as a `Value`,
/// `Value::get` takes the member `key`, and `Value::as_bool` reads it; the
/// result depends on the text and the key alone.
#[verifier::external_body]
pub(crate) fn read_bool_member(text: &str, key: &str) -> (r: Option<bool>)
    ensures
        r == json_bool_at(text@, key@),
{
    let v: Value = serde_json::from_str(text).ok()?;
    v.get(key)?.as_bool()
}

/// Relies on serde_json: `from_str` parses the text as a `Value`,
/// `Value::get` takes the member `key`, and `Value::as_i64` reads it; the
/// result depends on the text and the key alone.
#[verifier::external_body]
pub(crate) fn read_int_member(text: &str, key: &str) -> (r: Option<i64>)
    ensures
        r == json_int_at(text@, key@),
{
    let v: Value = serde_json::from_str(text).ok()?;
    v.get(key)?.as_i64()
}

/// Relies on serde_json: `from_str` parses the text as a `Value`,
/// `Value::get` takes the member `key`, and `Value::as_str` reads it; the
/// result depends on the text and the key alone.
#[verifier::external_body]
pub(crate) fn read_str_member(text: &str, key: &str) -> (r: Option<String>)
    ensures
        match r {
            Some(x) => json_str_at(text@, key@) == Some(x@),
            None => json_str_at(text@, key@) is None,
        },
{
    let v: Value = serde_json::from_str(text).ok()?;
    Some(v.get(key)?.as_str()?.to_string())
}

/// Relies on the `Display` form of serde_json's `Value`: its compact JSON text.
#[verifier::external_body]
pub(crate) fn json_text(v: &Value) -> String {
    v.to_string()
}

/// Whether a member read as an integer is present and fits an `i32`.
pub open spec fn fits_i32(x: Option<i64>) -> bool {
    x is Some && i32::MIN <= x->0 <= i32::MAX
}

/// The session record that given members make, when all of them are present
/// and the countdowns fit their fields.
pub open spec fn session_record(
    detachment_allowed: Option<bool>,
    is_detached: Option<bool>,
    time_left: Option<i64>,
    time_left_after_detachment: Option<i64>,
    time_allotted: Option<i64>,
    shared: Option<bool>,
) -> Option<SessionTimingInfo> {
    if detachment_allowed is Some && is_detached is Some && fits_i32(time_left) && fits_i32(
        time_left_after_detachment,
    ) && fits_i32(time_allotted) && shared is Some {
        Some(
            SessionTimingInfo {
                detachment_allowed: detachment_allowed->0,
                is_detached: is_detached->0,
                time_left: time_left->0 as i32,
                time_left_after_detachment: time_left_after_detachment->0 as i32,
                time_allotted: time_allotted->0 as i32,
                shared: shared->0,
            },
        )
    } else {
        None
    }
}

/// The session record that a stored JSON text holds.
pub open spec fn stored_session_record(text: Seq<char>) -> Option<SessionTimingInfo> {
    session_record(
        json_bool_at(text, "_detachment_allowed"@),
        json_bool_at(text, "_is_detached"@),
        json_int_at(text, "_time_left"@),
        json_int_at(text, "_time_left_after_detachment"@),
        json_int_at(text, "_time_allotted"@),
        json_bool_at(text, "_shared"@),
    )
}

/// The token record that given members make, when all of them are present
/// and the countdowns fit their fields.
pub open spec fn token_record(
    detachment_allowed: Option<bool>,
    is_detached: Option<bool>,
    time_left: Option<i64>,
    time_left_after_detachment: Option<i64>,
    time_allotted: Option<i64>,
) -> Option<TokenTimingInfo> {
    if detachment_allowed is Some && is_detached is Some && fits_i32(time_left) && fits_i32(
        time_left_after_detachment,
    ) && fits_i32(time_allotted) {
        Some(
            TokenTimingInfo {
                detachment_allowed: detachment_allowed->0,
                is_detached: is_detached->0,
                time_left: time_left->0 as i32,
                time_left_after_detachment: time_left_after_detachment->0 as i32,
                time_allotted: time_allotted->0 as i32,
            },
        )
    } else {
        None
    }
}

/// The token record that a stored JSON text holds.
pub open spec fn stored_token_record(text: Seq<char>) -> Option<TokenTimingInfo> {
    token_record(
        json_bool_at(text, "_detachment_allowed"@),
        json_bool_at(text, "_is_detached"@),
        json_int_at(text, "_time_left"@),
        json_int_at(text, "_time_left_after_detachment"@),
        json_int_at(text, "_time_allotted"@),
    )
}

/// Whether a text holds the members of a transfer record: a boolean
/// `_sellable` and an integer `_price`.
pub open spec fn transfer_fields(text: Seq<char>) -> bool {
    json_bool_at(text, "_sellable"@) is Some && json_int_at(text, "_price"@) is Some
}

/// The transfer record that a text gives for `owner`: its `_sellable` and
/// `_price`, and its `_owner` where that is a string, else `owner`.
pub open spec fn transfer_record_of(text: Seq<char>, owner: Seq<char>) -> TransferView {
    TransferView {
        sellable: json_bool_at(text, "_sellable"@)->0,
        price: json_int_at(text, "_price"@)->0,
        owner: match json_str_at(text, "_owner"@) {
            Some(w) => w,
            None => owner,
        },
    }
}

impl SessionTimingInfo {
    /// The record that the members of a stored session record give, when all
    /// of them are present and the countdowns fit their fields.
    pub fn from_members(
        detachment_allowed: Option<bool>,
        is_detached: Option<bool>,
        time_left: Option<i64>,
        time_left_after_detachment: Option<i64>,
        time_allotted: Option<i64>,
        shared: Option<bool>,
    ) -> (r: Option<SessionTimingInfo>)
        ensures
            r == session_record(
                detachment_allowed,
                is_detached,
                time_left,
                time_left_after_detachment,
                time_allotted,
                shared,
            ),
    {
        match (detachment_allowed, is_detached, time_left, time_left_after_detachment, time_allotted, shared) {
            (Some(a), Some(d), Some(l), Some(ld), Some(t), Some(s)) => {
                if i32::MIN as i64 <= l && l <= i32::MAX as i64 && i32::MIN as i64 <= ld && ld
                    <= i32::MAX as i64 && i32::MIN as i64 <= t && t <= i32::MAX as i64 {
                    Some(
                        SessionTimingInfo {
                            detachment_allowed: a,
                            is_detached: d,
                            time_left: l as i32,
                            time_left_after_detachment: ld as i32,
                            time_allotted: t as i32,
                            shared: s,
                        },
                    )
                } else {
                    None
                }
            },
            _ => None,
        }
    }

    /// Replaces the record by the one that the JSON text `stored_info` holds;
    /// where a member is missing or out of range the record stays as it was.
    pub fn set_all(&mut self, stored_info: &str) -> (r: bool)
        ensures
            r == stored_session_record(stored_info@) is Some,
            r ==> *final(self) == stored_session_record(stored_info@)->0,
            !r ==> *final(self) == *old(self),
    {
        let read = SessionTimingInfo::from_members(
            read_bool_member(stored_info, "_detachment_allowed"),
            read_bool_member(stored_info, "_is_detached"),
            read_int_member(stored_info, "_time_left"),
            read_int_member(stored_info, "_time_left_after_detachment"),
            read_int_member(stored_info, "_time_allotted"),
            read_bool_member(stored_info, "_shared"),
        );
        match read {
            Some(info) => {
                *self = info;
                true
            },
            None => false,
        }
    }
}

impl TokenTimingInfo {
    /// The record that the members of a stored token record give, when all of
    /// them are present and the countdowns fit their fields.
    pub fn from_members(
        detachment_allowed: Option<bool>,
        is_detached: Option<bool>,
        time_left: Option<i64>,
        time_left_after_detachment: Option<i64>,
        time_allotted: Option<i64>,
    ) -> (r: Option<TokenTimingInfo>)
        ensures
            r == token_record(
                detachment_allowed,
                is_detached,
                time_left,
                time_left_after_detachment,
                time_allotted,
            ),
    {
        match (detachment_allowed, is_detached, time_left, time_left_after_detachment, time_allotted) {
            (Some(a), Some(d), Some(l), Some(ld), Some(t)) => {
                if i32::MIN as i64 <= l && l <= i32::MAX as i64 && i32::MIN as i64 <= ld && ld
                    <= i32::MAX as i64 && i32::MIN as i64 <= t && t <= i32::MAX as i64 {
                    Some(
                        TokenTimingInfo {
                            detachment_allowed: a,
                            is_detached: d,
                            time_left: l as i32,
                            time_left_after_detachment: ld as i32,
                            time_allotted: t as i32,
                        },
                    )
                } else {
                    None
                }
            },
            _ => None,
        }
    }

    /// Replaces the record by the one that the JSON text `stored_info` holds;
    /// where a member is missing or out of range the record stays as it was.
    pub fn set_all(&mut self, stored_info: &str) -> (r: bool)
        ensures
            r == stored_token_record(stored_info@) is Some,
            r ==> *final(self) == stored_token_record(stored_info@)->0,
            !r ==> *final(self) == *old(self),
    {
        let read = TokenTimingInfo::from_members(
            read_bool_member(stored_info, "_detachment_allowed"),
            read_bool_member(stored_info, "_is_detached"),
            read_int_member(stored_info, "_time_left"),
            read_int_member(stored_info, "_time_left_after_detachment"),
            read_int_member(stored_info, "_time_allotted"),
        );
        match read {
            Some(info) => {
                *self = info;
                true
            },
            None => false,
        }
    }
}

impl TransferableTokenInfo {
    /// Takes each member that is given; the others keep their values.
    pub fn apply_members(&mut self, sellable: Option<bool>, price: Option<i64>, owner: Option<String>)
        ensures
            final(self).sellable == (match sellable {
                Some(b) => b,
                None => old(self).sellable,
            }),
            final(self).price == (match price {
                Some(p) => p,
                None => old(self).price,
            }),
            final(self).owner@ == (match owner {
                Some(o) => o@,
                None => old(self).owner@,
            }),
    {
        if let Some(b) = sellable {
            self.sellable = b;
        }
        if let Some(p) = price {
            self.price = p;
        }
        if let Some(o) = owner {
            self.owner = o;
        }
    }

    /// Takes the members `_sellable`, `_price` and `_owner` that the JSON
    /// text `stored_info` holds with the right type; the others keep their
    /// values.
    pub fn set_all(&mut self, stored_info: &str)
        ensures
            final(self).sellable == (match json_bool_at(stored_info@, "_sellable"@) {
                Some(b) => b,
                None => old(self).sellable,
            }),
            final(self).price == (match json_int_at(stored_info@, "_price"@) {
                Some(p) => p,
                None => old(self).price,
            }),
            final(self).owner@ == (match json_str_at(stored_info@, "_owner"@) {
                Some(o) => o,
                None => old(self).owner@,
            }),
    {
        let sellable = read_bool_member(stored_info, "_sellable");
        let price = read_int_member(stored_info, "_price");
        let owner = read_str_member(stored_info, "_owner");
        self.apply_members(sellable, price, owner);
    }
}

} // verus!
