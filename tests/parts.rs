use session_tokens::maker::{default_token_maker, gen_random_str, token_from_parts};
use session_tokens::records::{
    SessionTimingInfo, SessionTokenSets, SessionTokenTraits, Token, TokenTimingInfo,
    TransferableTokenInfo, GENERAL_DEFAULT_SESSION_TIMEOUT, SESSION_PREFIX,
};
use session_tokens::strmap::{StrMap, StrSet};
use session_tokens::text::{append_bool, append_int, append_nat};

#[test]
fn random_text_is_a_fresh_uuid() {
    let a = gen_random_str();
    let b = gen_random_str();
    assert_eq!(a.len(), 36);
    assert_ne!(a, b);
    assert_eq!(a.matches('-').count(), 4);
}

#[test]
fn timing_records_from_text() {
    let mut t = TokenTimingInfo::new(1);
    assert!(!t.set_all("{\"_time_left\":2}"));
    assert_eq!(t.time_left, 1);
    assert!(!t.set_all("not json"));
    assert!(t.set_all("{\"_detachment_allowed\":false,\"_is_detached\":true,\"_time_left\":2,\"_time_left_after_detachment\":3,\"_time_allotted\":4}"));
    assert_eq!((t.is_detached, t.time_left, t.time_left_after_detachment, t.time_allotted), (true, 2, 3, 4));
    let mut s = SessionTimingInfo::new(1);
    assert!(!s.set_all("{\"_detachment_allowed\":false,\"_is_detached\":true,\"_time_left\":2,\"_time_left_after_detachment\":3,\"_time_allotted\":4,\"_shared\":1}"));
    assert_eq!(s.time_left, 1);
}

#[test]
fn default_maker_tags_session_prefix() {
    match default_token_maker(Some(SESSION_PREFIX)) {
        Token::SessionToken(x) => {
            assert!(x.starts_with("user+"));
            assert_eq!(x.len(), 41);
        }
        Token::TransitionToken(_) => panic!("expected a session token"),
    }
    match default_token_maker(None) {
        Token::TransitionToken(x) => assert_eq!(x.len(), 36),
        Token::SessionToken(_) => panic!("expected a transition token"),
    }
    match default_token_maker(Some("media+")) {
        Token::TransitionToken(x) => assert!(x.starts_with("media+")),
        Token::SessionToken(_) => panic!("expected a transition token"),
    }
}

#[test]
fn token_from_parts_concatenates() {
    assert_eq!(
        token_from_parts(Some("user+"), "abc".to_string()),
        Token::SessionToken("user+abc".to_string())
    );
    assert_eq!(
        token_from_parts(Some("user"), "abc".to_string()),
        Token::TransitionToken("userabc".to_string())
    );
    assert_eq!(token_from_parts(None, "abc".to_string()), Token::TransitionToken("abc".to_string()));
}

#[test]
fn decimal_text() {
    assert_eq!(append_nat("x".to_string(), 0), "x0");
    assert_eq!(append_nat(String::new(), 4294967295), "4294967295");
    assert_eq!(append_int(String::new(), -120), "-120");
    assert_eq!(append_int(String::new(), i32::MIN), "-2147483648");
    assert_eq!(append_bool("a".to_string(), true), "atrue");
    assert_eq!(append_bool(String::new(), false), "false");
}

#[test]
fn fresh_records() {
    let s = SessionTimingInfo::new(GENERAL_DEFAULT_SESSION_TIMEOUT);
    assert_eq!(s.time_left, 3_600_000);
    assert!(!s.shared && !s.is_detached && !s.detachment_allowed);
    let t = TokenTimingInfo::new(10);
    assert_eq!((t.time_left, t.time_left_after_detachment, t.time_allotted), (10, 10, 10));
    let i = TransferableTokenInfo::new("o".to_string());
    assert_eq!((i.sellable, i.price, i.owner.as_str()), (false, 0, "o"));
}

#[test]
fn timing_records_from_members() {
    assert!(SessionTimingInfo::from_members(Some(true), Some(false), Some(1), Some(2), Some(3), None).is_none());
    assert!(SessionTimingInfo::from_members(Some(true), Some(false), Some(1), Some(2), Some(1 << 40), Some(true)).is_none());
    let r = SessionTimingInfo::from_members(Some(true), Some(false), Some(1), Some(2), Some(3), Some(true)).unwrap();
    assert_eq!((r.time_left, r.time_left_after_detachment, r.time_allotted, r.shared), (1, 2, 3, true));
    let t = TokenTimingInfo::from_members(Some(false), Some(true), Some(-1), Some(0), Some(5)).unwrap();
    assert_eq!((t.is_detached, t.time_left, t.time_allotted), (true, -1, 5));
    assert!(TokenTimingInfo::from_members(None, Some(true), Some(-1), Some(0), Some(5)).is_none());
}

#[test]
fn transfer_record_members() {
    let mut i = TransferableTokenInfo::new("o".to_string());
    i.apply_members(None, Some(-3), None);
    assert_eq!((i.sellable, i.price, i.owner.as_str()), (false, -3, "o"));
    i.set_all("{\"_sellable\":true,\"_owner\":\"p\",\"_price\":\"x\"}");
    assert_eq!((i.sellable, i.price, i.owner.as_str()), (true, -3, "p"));
}

#[test]
fn token_sets_clear() {
    let mut sets = SessionTokenSets::new();
    sets.session_bounded.insert("a".to_string());
    sets.session_carries.insert("b".to_string());
    assert!(sets.session_bounded.contains(&"a".to_string()));
    sets.clear();
    assert!(!sets.session_bounded.contains(&"a".to_string()));
    assert!(sets.session_carries.to_vec().is_empty());
}

#[test]
fn str_map_keeps_distinct_keys() {
    let mut m: StrMap<String> = StrMap::new();
    m.insert("a".to_string(), "1".to_string());
    m.insert("b".to_string(), "2".to_string());
    m.insert("a".to_string(), "3".to_string());
    assert_eq!(m.get(&"a".to_string()), Some(&"3".to_string()));
    assert_eq!(m.keys(), vec!["b".to_string(), "a".to_string()]);
    assert_eq!(m.remove(&"b".to_string()), Some("2".to_string()));
    assert_eq!(m.remove(&"b".to_string()), None);
    assert!(!m.contains_key(&"b".to_string()));
}

#[test]
fn str_set_membership() {
    let mut s = StrSet::new();
    s.insert("x".to_string());
    s.insert("x".to_string());
    s.insert("y".to_string());
    assert_eq!(s.to_vec(), vec!["x".to_string(), "y".to_string()]);
    s.remove(&"x".to_string());
    assert!(!s.contains(&"x".to_string()));
}
