use std::collections::HashMap;
use std::sync::{Arc, Mutex};

use session_tokens::maker::DefaultTokenMaker;
use session_tokens::records::{SessionTimingInfo, StructOrString, Token};
use session_tokens::storage::DB;
use session_tokens::table::{LocalSessionTokens, TokenTables};

#[derive(Clone, Default)]
struct MemoryDb {
    values: Arc<Mutex<HashMap<String, String>>>,
    secrets: Arc<Mutex<HashMap<String, String>>>,
}

impl MemoryDb {
    fn stored(&self, key: &str) -> Option<String> {
        self.values.lock().unwrap().get(key).cloned()
    }

    fn put(&self, key: &str, value: &str) {
        self.values.lock().unwrap().insert(key.to_string(), value.to_string());
    }

    fn has_secret(&self, key: &str) -> bool {
        self.secrets.lock().unwrap().contains_key(key)
    }
}

impl DB for MemoryDb {
    fn set_session_key_value(&self, session_token: &String, ownership_key: String) -> String {
        let h = format!("verifier:{}", ownership_key);
        self.secrets.lock().unwrap().insert(session_token.clone(), h.clone());
        h
    }

    fn del_session_key_value(&self, session_token: &String) -> bool {
        self.secrets.lock().unwrap().remove(session_token).is_some()
    }

    fn set_key_value(&self, token: &String, value: &str) {
        self.values.lock().unwrap().insert(token.clone(), value.to_string());
    }

    fn get_key_value(&self, token: &String) -> Option<String> {
        self.values.lock().unwrap().get(token).cloned()
    }

    fn del_key_value(&self, token: &String) {
        self.values.lock().unwrap().remove(token);
    }

    fn check_hash(&self, hh_unidentified: &str, ownership_key: String) -> bool {
        hh_unidentified == format!("verifier:{}", ownership_key)
    }
}

type Table = LocalSessionTokens<MemoryDb, DefaultTokenMaker>;

fn table(db: &MemoryDb) -> Table {
    LocalSessionTokens::new(db.clone(), DefaultTokenMaker)
}

fn s(x: &str) -> String {
    x.to_string()
}

fn sorted(mut v: Vec<String>) -> Vec<String> {
    v.sort();
    v
}

const TICKET: &str = "{\"_sellable\":true,\"_price\":7,\"_owner\":\"ownerA\"}";

const PLAIN: &str = "{\"_sellable\":false,\"_price\":0}";

#[test]
fn add_session_binds_owner_and_token() {
    let db = MemoryDb::default();
    let mut t = table(&db);
    let r = t.add_session(&s("s1"), &s("ownerA"), Some(s("t1")), None);
    assert_eq!(r, None);
    assert_eq!(t.active_session(&s("s1"), &s("ownerA")), Some(true));
    assert_eq!(t.active_session(&s("s1"), &s("ownerB")), Some(false));
    assert_eq!(t.from_token(s("t1")), "ownerA");
    assert_eq!(t.transition_token_is_active(&s("t1")), Some(s("verifier:ownerA")));
    assert!(!t.token_is_transferable(&s("t1")));
    assert_eq!(t.get_session_timeout(&s("s1")), Some(60 * 60 * 1000));
    assert!(db.has_secret("s1"));
}

#[test]
fn destroy_session_through_bound_token() {
    let db = MemoryDb::default();
    let mut t = table(&db);
    t.add_session(&s("s1"), &s("ownerA"), Some(s("t1")), None);
    t.destroy_session(&s("t1"));
    assert_eq!(t.active_session(&s("s1"), &s("ownerA")), Some(false));
    assert_eq!(t.from_token(s("t1")), "");
    assert_eq!(t.transition_token_is_active(&s("t1")), None);
    assert_eq!(t.get_token_timeout(&s("t1")), None);
    assert_eq!(t.get_session_timeout(&s("s1")), None);
    assert!(t.list_unassigned_tokens().is_empty());
    assert!(!db.has_secret("s1"));
    assert_eq!(db.stored("t1"), None);
}

#[test]
fn destroy_session_of_unknown_token_changes_nothing() {
    let db = MemoryDb::default();
    let mut t = table(&db);
    t.add_session(&s("s1"), &s("ownerA"), Some(s("t1")), None);
    t.destroy_session(&s("nobody"));
    assert_eq!(t.active_session(&s("s1"), &s("ownerA")), Some(true));
    assert_eq!(t.from_token(s("t1")), "ownerA");
}

#[test]
fn transfer_moves_token_between_owners() {
    let db = MemoryDb::default();
    let mut t = table(&db);
    t.add_session(&s("s1"), &s("ownerA"), None, None);
    t.add_transferable_token(&s("t2"), StructOrString::TypeStr(s(TICKET)), &s("ownerA"));
    assert_eq!(t.list_transferable_tokens(&s("s1")), vec![s("t2")]);
    t.add_session(&s("s2"), &s("ownerB"), None, None);
    t.transfer_token(&s("t2"), &s("ownerA"), &s("ownerB"));
    assert_eq!(t.from_token(s("t2")), "ownerB");
    assert_eq!(t.list_transferable_tokens(&s("s2")), vec![s("t2")]);
    assert!(t.list_transferable_tokens(&s("s1")).is_empty());
    assert_eq!(t.transition_token_is_active(&s("t2")), Some(s(TICKET)));
    assert!(t.token_is_transferable(&s("t2")));
    assert_eq!(t.list_sellable_tokens(), vec![s("t2")]);
    assert_eq!(db.stored("t2"), Some(s(TICKET)));
}

#[test]
fn transfer_of_untransferable_token_changes_nothing() {
    let db = MemoryDb::default();
    let mut t = table(&db);
    t.add_session(&s("s1"), &s("ownerA"), Some(s("t1")), None);
    t.add_session(&s("s2"), &s("ownerB"), None, None);
    t.transfer_token(&s("t1"), &s("ownerA"), &s("ownerB"));
    assert_eq!(t.from_token(s("t1")), "ownerA");
    assert!(t.list_transferable_tokens(&s("s2")).is_empty());
}

#[test]
fn transfer_without_yielder_session_changes_nothing() {
    let db = MemoryDb::default();
    let mut t = table(&db);
    t.add_session(&s("s1"), &s("ownerA"), None, None);
    t.add_transferable_token(&s("t2"), StructOrString::TypeStr(s(TICKET)), &s("ownerA"));
    t.add_session(&s("s2"), &s("ownerB"), None, None);
    t.transfer_token(&s("t2"), &s("ownerC"), &s("ownerB"));
    assert_eq!(t.from_token(s("t2")), "ownerA");
    assert_eq!(t.list_transferable_tokens(&s("s1")), vec![s("t2")]);
    assert!(t.list_transferable_tokens(&s("s2")).is_empty());
}

#[test]
fn transfer_reclaims_orphan() {
    let db = MemoryDb::default();
    let mut t = table(&db);
    t.add_session(&s("s1"), &s("ownerA"), Some(s("b1")), None);
    t.add_transferable_token(&s("t2"), StructOrString::TypeStr(s(TICKET)), &s("ownerA"));
    t.destroy_session(&s("b1"));
    assert_eq!(t.list_unassigned_tokens(), vec![s("t2")]);
    t.add_session(&s("s2"), &s("ownerB"), None, None);
    t.add_session(&s("s3"), &s("ownerC"), None, None);
    t.transfer_token(&s("t2"), &s("ownerB"), &s("ownerC"));
    assert_eq!(t.from_token(s("t2")), "ownerC");
    assert_eq!(t.list_transferable_tokens(&s("s3")), vec![s("t2")]);
    assert!(t.list_unassigned_tokens().is_empty());
}

#[test]
fn destroyed_session_orphans_carried_tokens() {
    let db = MemoryDb::default();
    let mut t = table(&db);
    t.add_session(&s("s1"), &s("ownerA"), Some(s("b1")), None);
    t.add_transferable_token(&s("c1"), StructOrString::TypeStr(s("{\"kind\":1,\"_sellable\":false,\"_price\":1}")), &s("ownerA"));
    t.add_transferable_token(&s("c2"), StructOrString::TypeStr(s("{\"kind\":2,\"_sellable\":false,\"_price\":2}")), &s("ownerA"));
    t.destroy_session(&s("b1"));
    assert_eq!(sorted(t.list_unassigned_tokens()), vec![s("c1"), s("c2")]);
    assert_eq!(t.transition_token_is_active(&s("c1")), Some(s("{\"kind\":1,\"_sellable\":false,\"_price\":1}")));
    assert_eq!(t.transition_token_is_active(&s("c2")), Some(s("{\"kind\":2,\"_sellable\":false,\"_price\":2}")));
    assert_eq!(t.transition_token_is_active(&s("b1")), None);
    assert!(t.token_is_transferable(&s("c1")));
}

#[test]
fn bounded_token_binds_to_one_session() {
    let db = MemoryDb::default();
    let mut t = table(&db);
    t.add_session(&s("s1"), &s("ownerA"), Some(s("t1")), None);
    t.add_session(&s("s2"), &s("ownerB"), Some(s("t1")), None);
    assert_eq!(t.from_token(s("t1")), "ownerB");
    t.destroy_session(&s("t1"));
    assert_eq!(t.active_session(&s("s2"), &s("ownerB")), Some(false));
    assert_eq!(t.active_session(&s("s1"), &s("ownerA")), Some(true));
}

#[test]
fn add_token_reads_back_from_cache() {
    let db = MemoryDb::default();
    let mut t = table(&db);
    t.add_token(&s("t5"), StructOrString::TypeStr(s("hello")));
    assert_eq!(t.transition_token_is_active(&s("t5")), Some(s("hello")));
    assert_eq!(t.get_token_timeout(&s("t5")), Some(60 * 60 * 1000));
}

#[test]
fn add_token_reads_back_from_storage() {
    let db = MemoryDb::default();
    let mut first = table(&db);
    first.add_token(&s("t5"), StructOrString::TypeStr(s("hello")));
    let mut second = table(&db);
    assert_eq!(second.get_token_timeout(&s("t5")), None);
    assert_eq!(second.transition_token_is_active(&s("t5")), Some(s("hello")));
    assert_eq!(second.get_token_timeout(&s("t5")), Some(60 * 60 * 1000));
    assert_eq!(second.transition_token_is_active(&s("missing")), None);
}

#[test]
fn add_token_stores_structured_value_as_json() {
    let db = MemoryDb::default();
    let mut t = table(&db);
    let v: serde_json::Value = serde_json::from_str("{ \"a\" : [1, 2] }").unwrap();
    t.add_token(&s("t6"), StructOrString::TypeGen(v));
    assert_eq!(t.transition_token_is_active(&s("t6")), Some(s("{\"a\":[1,2]}")));
    assert_eq!(db.stored("t6"), Some(s("{\"a\":[1,2]}")));
}

#[test]
fn destroy_token_erases_everything() {
    let db = MemoryDb::default();
    let mut t = table(&db);
    t.add_session(&s("s1"), &s("ownerA"), None, None);
    t.add_transferable_token(&s("t2"), StructOrString::TypeStr(s(TICKET)), &s("ownerA"));
    t.destroy_token(&s("t2"));
    assert_eq!(t.from_token(s("t2")), "");
    assert!(!t.token_is_transferable(&s("t2")));
    assert!(t.list_transferable_tokens(&s("s1")).is_empty());
    assert!(t.list_sellable_tokens().is_empty());
    assert_eq!(t.transition_token_is_active(&s("t2")), None);
    assert_eq!(t.active_session(&s("s1"), &s("ownerA")), Some(true));
}

#[test]
fn session_expires_after_repeated_sweeps() {
    let db = MemoryDb::default();
    let mut t = table(&db);
    t.add_session(&s("s1"), &s("ownerA"), Some(s("t1")), None);
    t.add_transferable_token(&s("c1"), StructOrString::TypeStr(s(PLAIN)), &s("ownerA"));
    t.set_session_timeout(&s("s1"), 1200);
    t.decrement_timers();
    assert_eq!(t.get_session_time_left(&s("s1")), Some(700));
    assert_eq!(t.get_session_timeout(&s("s1")), Some(1200));
    t.decrement_timers();
    assert_eq!(t.get_session_time_left(&s("s1")), Some(200));
    t.decrement_timers();
    assert_eq!(t.get_session_time_left(&s("s1")), None);
    assert_eq!(t.active_session(&s("s1"), &s("ownerA")), Some(false));
    assert!(t.list_transferable_tokens(&s("s1")).is_empty());
    assert!(t.list_detached_sessions().is_empty());
    assert_eq!(t.from_token(s("t1")), "");
    assert_eq!(t.transition_token_is_active(&s("t1")), None);
    assert_eq!(t.list_unassigned_tokens(), vec![s("c1")]);
}

#[test]
fn token_expires_after_sweep() {
    let db = MemoryDb::default();
    let mut t = table(&db);
    t.add_session(&s("s1"), &s("ownerA"), None, None);
    t.add_transferable_token(&s("t2"), StructOrString::TypeStr(s(TICKET)), &s("ownerA"));
    t.set_token_timeout(&s("t2"), 500);
    assert_eq!(t.get_token_time_left(&s("t2")), Some(500));
    t.decrement_timers();
    assert_eq!(t.get_token_time_left(&s("t2")), None);
    assert_eq!(t.transition_token_is_active(&s("t2")), None);
    assert!(t.list_sellable_tokens().is_empty());
    assert!(t.list_transferable_tokens(&s("s1")).is_empty());
    assert!(t.list_unassigned_tokens().is_empty());
    assert_eq!(t.from_token(s("t2")), "");
    assert_eq!(t.get_session_time_left(&s("s1")), Some(60 * 60 * 1000 - 500));
}

#[test]
fn detached_session_counts_down_its_detachment_time() {
    let db = MemoryDb::default();
    let mut t = table(&db);
    t.add_session(&s("s1"), &s("ownerA"), None, None);
    t.detach_session(s("nobody"));
    assert!(t.list_detached_sessions().is_empty());
    t.detach_session(s("s1"));
    assert_eq!(t.list_detached_sessions(), vec![s("s1")]);
    t.decrement_timers();
    assert_eq!(t.get_session_time_left(&s("s1")), Some(60 * 60 * 1000));
    t.attach_session(s("s1"));
    assert!(t.list_detached_sessions().is_empty());
    t.decrement_timers();
    assert_eq!(t.get_session_time_left(&s("s1")), Some(60 * 60 * 1000 - 500));
}

#[test]
fn shared_session_returns_verifier_and_persists_timing() {
    let db = MemoryDb::default();
    let mut t = table(&db);
    let r = t.add_session(&s("s1"), &s("ownerA"), None, Some(true));
    assert_eq!(r, Some(s("verifier:ownerA")));
    assert_eq!(
        db.stored("s1"),
        Some(s("{\"_detachment_allowed\":false,\"_is_detached\":false,\"_time_left\":3600000,\"_time_left_after_detachment\":3600000,\"_time_allotted\":3600000,\"_shared\":true}"))
    );
    t.set_session_timeout(&s("s1"), 42);
    assert_eq!(
        db.stored("s1"),
        Some(s("{\"_detachment_allowed\":false,\"_is_detached\":false,\"_time_left\":42,\"_time_left_after_detachment\":3600000,\"_time_allotted\":42,\"_shared\":true}"))
    );
    assert_eq!(t.add_session(&s("s2"), &s("ownerB"), None, Some(false)), None);
    assert_eq!(db.stored("s2"), None);
}

#[test]
fn reload_session_info_restores_countdowns() {
    let db = MemoryDb::default();
    let mut t = table(&db);
    t.add_session(&s("s1"), &s("ownerA"), None, Some(true));
    db.put("s1", "{\"_detachment_allowed\":true,\"_is_detached\":false,\"_time_left\":77,\"_time_left_after_detachment\":88,\"_time_allotted\":99,\"_shared\":true}");
    assert!(!t.reload_session_info(&s("s1"), &s("ownerB"), s("h2")));
    assert_eq!(t.get_session_time_left(&s("s1")), Some(3600000));
    assert!(t.reload_session_info(&s("s1"), &s("ownerA"), s("verifier:ownerA")));
    assert_eq!(t.get_session_time_left(&s("s1")), Some(77));
    assert_eq!(t.get_session_timeout(&s("s1")), Some(99));
}

#[test]
fn reload_session_info_rejects_incomplete_record() {
    let db = MemoryDb::default();
    let mut t = table(&db);
    t.add_session(&s("s1"), &s("ownerA"), None, Some(true));
    db.put("s1", "{\"_time_left\":77}");
    assert!(!t.reload_session_info(&s("s1"), &s("ownerA"), s("x")));
    assert_eq!(t.get_session_time_left(&s("s1")), Some(3600000));
    db.put("s1", "not json");
    assert!(!t.reload_session_info(&s("s1"), &s("ownerA"), s("x")));
    assert_eq!(t.active_session(&s("s1"), &s("ownerA")), Some(true));
}

#[test]
fn reload_token_info_reads_stored_record() {
    let db = MemoryDb::default();
    let mut t = table(&db);
    db.put("t9", "{\"_detachment_allowed\":false,\"_is_detached\":false,\"_time_left\":5,\"_time_left_after_detachment\":6,\"_time_allotted\":7}");
    t.reload_token_info(&s("t9"));
    assert_eq!(t.get_token_time_left(&s("t9")), Some(5));
    assert_eq!(t.get_token_timeout(&s("t9")), Some(7));
    db.put("t9", "{\"_time_left\":1}");
    t.reload_token_info(&s("t9"));
    assert_eq!(t.get_token_time_left(&s("t9")), Some(5));
}

#[test]
fn sellable_flags_and_price() {
    let db = MemoryDb::default();
    let mut t = table(&db);
    t.add_session(&s("s1"), &s("ownerA"), None, None);
    t.add_transferable_token(&s("a"), StructOrString::TypeStr(s(PLAIN)), &s("ownerA"));
    t.add_transferable_token(&s("b"), StructOrString::TypeStr(s(TICKET)), &s("ownerA"));
    assert_eq!(t.list_sellable_tokens(), vec![s("b")]);
    t.set_token_sellable(&s("a"), Some(9));
    assert_eq!(sorted(t.list_sellable_tokens()), vec![s("a"), s("b")]);
    t.unset_token_sellable(&s("b"));
    assert_eq!(t.list_sellable_tokens(), vec![s("a")]);
    t.set_token_sellable(&s("missing"), None);
    assert_eq!(t.list_sellable_tokens(), vec![s("a")]);
}

#[test]
fn transferable_token_needs_json_and_a_session() {
    let db = MemoryDb::default();
    let mut t = table(&db);
    t.add_transferable_token(&s("t2"), StructOrString::TypeStr(s(TICKET)), &s("ownerA"));
    assert!(!t.token_is_transferable(&s("t2")));
    t.add_session(&s("s1"), &s("ownerA"), None, None);
    t.add_transferable_token(&s("t2"), StructOrString::TypeStr(s("not json")), &s("ownerA"));
    assert!(!t.token_is_transferable(&s("t2")));
    t.add_transferable_token(&s("t2"), StructOrString::TypeStr(s("5")), &s("ownerA"));
    assert!(!t.token_is_transferable(&s("t2")));
    t.add_transferable_token(&s("t2"), StructOrString::TypeStr(s("{\"_sellable\":true}")), &s("ownerA"));
    assert!(!t.token_is_transferable(&s("t2")));
    assert_eq!(db.stored("t2"), None);
    assert_eq!(t.from_token(s("t2")), "");
    assert!(t.list_transferable_tokens(&s("s1")).is_empty());
    let v: serde_json::Value = serde_json::from_str(TICKET).unwrap();
    t.add_transferable_token(&s("t3"), StructOrString::TypeGen(v), &s("ownerA"));
    assert!(t.token_is_transferable(&s("t3")));
    assert_eq!(t.list_sellable_tokens(), vec![s("t3")]);
    assert_eq!(
        t.transition_token_is_active(&s("t3")),
        Some(s("{\"_owner\":\"ownerA\",\"_price\":7,\"_sellable\":true}"))
    );
}

#[test]
fn session_bounded_token_is_not_transferable() {
    let db = MemoryDb::default();
    let mut t = table(&db);
    t.add_session(&s("s1"), &s("ownerA"), None, None);
    t.add_transferable_token(&s("t2"), StructOrString::TypeStr(s(TICKET)), &s("ownerA"));
    t.add_session_bounded_token(&s("t2"), StructOrString::TypeStr(s("v")), &s("ownerA"));
    assert!(!t.token_is_transferable(&s("t2")));
    assert!(t.list_transferable_tokens(&s("s1")).is_empty());
    assert_eq!(t.transition_token_is_active(&s("t2")), Some(s("v")));
    t.destroy_session(&s("t2"));
    assert_eq!(t.transition_token_is_active(&s("t2")), None);
    assert!(t.list_unassigned_tokens().is_empty());
}

#[test]
fn acquire_token_takes_over_orphan() {
    let db = MemoryDb::default();
    let mut t = table(&db);
    t.add_session(&s("s1"), &s("ownerA"), Some(s("b1")), None);
    t.add_transferable_token(&s("c1"), StructOrString::TypeStr(s(TICKET)), &s("ownerA"));
    t.destroy_session(&s("b1"));
    t.add_session(&s("s2"), &s("ownerB"), None, None);
    assert!(t.acquire_token(&s("c1"), &s("s2"), &s("ownerB")));
    assert_eq!(t.from_token(s("c1")), "ownerB");
    assert_eq!(t.list_transferable_tokens(&s("s2")), vec![s("c1")]);
    assert!(t.list_unassigned_tokens().is_empty());
    assert_eq!(t.list_sellable_tokens(), vec![s("c1")]);
    assert!(!t.acquire_token(&s("nothing"), &s("s2"), &s("ownerB")));
}

#[test]
fn general_timeouts_apply_to_new_records() {
    let db = MemoryDb::default();
    let mut t = table(&db);
    t.set_general_session_timeout(1000);
    t.set_general_token_timeout(2000);
    t.add_session(&s("s1"), &s("ownerA"), Some(s("t1")), None);
    assert_eq!(t.get_session_timeout(&s("s1")), Some(1000));
    assert_eq!(t.get_token_timeout(&s("t1")), Some(2000));
    t.set_disownment_token_timeout(&s("t1"), 3);
    t.set_token_timeout(&s("t1"), 4000);
    assert_eq!(t.get_token_time_left(&s("t1")), Some(4000));
    assert_eq!(t.get_token_timeout(&s("missing")), None);
    assert_eq!(t.get_session_time_left(&s("missing")), None);
}

#[test]
fn re_adding_session_for_other_owner_moves_owner_link() {
    let db = MemoryDb::default();
    let mut t = table(&db);
    t.add_session(&s("s1"), &s("ownerA"), None, None);
    t.add_session(&s("s1"), &s("ownerB"), None, None);
    t.add_transferable_token(&s("t2"), StructOrString::TypeStr(s(PLAIN)), &s("ownerA"));
    assert!(!t.token_is_transferable(&s("t2")));
    t.add_transferable_token(&s("t3"), StructOrString::TypeStr(s(PLAIN)), &s("ownerB"));
    assert_eq!(t.list_transferable_tokens(&s("s1")), vec![s("t3")]);
}

#[test]
fn create_token_follows_prefix() {
    let db = MemoryDb::default();
    let mut t = table(&db);
    match t.create_token(Some(s("user+"))) {
        Token::SessionToken(x) => {
            assert!(x.starts_with("user+"));
            assert_eq!(x.len(), 5 + 36);
        }
        Token::TransitionToken(_) => panic!("expected a session token"),
    }
    match t.create_token(None) {
        Token::TransitionToken(x) => assert_eq!(x.len(), 36),
        Token::SessionToken(_) => panic!("expected a transition token"),
    }
    t.set_token_creator(DefaultTokenMaker);
    match t.create_token(Some(s("media+"))) {
        Token::TransitionToken(x) => assert!(x.starts_with("media+")),
        Token::SessionToken(_) => panic!("expected a transition token"),
    }
}

#[test]
fn session_timing_json_parses_back() {
    let info = SessionTimingInfo {
        detachment_allowed: true,
        is_detached: false,
        time_left: -5,
        time_left_after_detachment: i32::MIN,
        time_allotted: i32::MAX,
        shared: false,
    };
    let text = info.to_json();
    assert_eq!(
        text,
        "{\"_detachment_allowed\":true,\"_is_detached\":false,\"_time_left\":-5,\"_time_left_after_detachment\":-2147483648,\"_time_allotted\":2147483647,\"_shared\":false}"
    );
    let v: serde_json::Value = serde_json::from_str(&text).unwrap();
    assert_eq!(v["_time_left"].as_i64(), Some(-5));
    let mut back = SessionTimingInfo::new(0);
    assert!(back.set_all(&text));
    assert!(back.detachment_allowed);
    assert_eq!(back.time_left, -5);
    assert_eq!(back.time_left_after_detachment, i32::MIN);
    assert_eq!(back.time_allotted, i32::MAX);
}

#[test]
fn transfer_record_takes_members() {
    let db = MemoryDb::default();
    let mut t = table(&db);
    t.add_session(&s("s1"), &s("ownerA"), None, None);
    t.add_session(&s("s2"), &s("ownerB"), None, None);
    t.add_transferable_token(&s("t1"), StructOrString::TypeStr(s("{\"_sellable\":true,\"_price\":3}")), &s("ownerA"));
    t.add_transferable_token(&s("t2"), StructOrString::TypeStr(s(PLAIN)), &s("ownerA"));
    assert_eq!(t.list_sellable_tokens(), vec![s("t1")]);
    assert_eq!(t.from_token(s("t1")), "ownerA");
    t.transfer_token(&s("t1"), &s("ownerA"), &s("ownerB"));
    assert_eq!(t.list_sellable_tokens(), vec![s("t1")]);
    assert_eq!(db.stored("t1"), Some(s("{\"_sellable\":true,\"_price\":3}")));
}

#[test]
fn detach_persists_shared_record() {
    let db = MemoryDb::default();
    let mut t = table(&db);
    t.add_session(&s("s1"), &s("ownerA"), None, Some(true));
    t.allow_session_detach(s("s1"));
    t.detach_session(s("s1"));
    assert_eq!(
        db.stored("s1"),
        Some(s("{\"_detachment_allowed\":true,\"_is_detached\":true,\"_time_left\":3600000,\"_time_left_after_detachment\":3600000,\"_time_allotted\":3600000,\"_shared\":true}"))
    );
    t.destroy_session(&s("nobody"));
    t.add_session(&s("s9"), &s("ownerZ"), Some(s("b9")), None);
    t.destroy_session(&s("b9"));
    assert!(db.stored("s1").is_some());
}

#[test]
fn destroying_shared_session_deletes_its_record() {
    let db = MemoryDb::default();
    let mut t = table(&db);
    t.add_session(&s("s1"), &s("ownerA"), Some(s("b1")), Some(true));
    assert!(db.stored("s1").is_some());
    t.destroy_session(&s("b1"));
    assert_eq!(db.stored("s1"), None);
    assert_eq!(db.stored("b1"), None);
    assert!(!db.has_secret("s1"));
}
