use edge_workers::kv::{
    get_namespace, op_kv_all, op_kv_clear, op_kv_delete, op_kv_get, op_kv_set, KvError, KvStore,
    Namespace,
};
use edge_workers::session::Session;

fn store_with(user_ids: &[(i32, i32, &str)]) -> KvStore {
    let mut store = KvStore::new();
    for (ns_id, user_id, name) in user_ids {
        store.add_namespace(Namespace { id: *ns_id, name: name.to_string(), user_id: *user_id });
    }
    store
}

fn s(x: &str) -> String {
    x.to_string()
}

#[test]
fn set_then_get_returns_value() {
    let mut store = store_with(&[(7, 1, "default")]);
    let session = Session::new(1);
    op_kv_set(&mut store, &session, s("a"), s("1")).unwrap();
    assert_eq!(op_kv_get(&store, &session, "a"), Ok(Some(s("1"))));
}

#[test]
fn second_set_wins() {
    let mut store = store_with(&[(7, 1, "default")]);
    let session = Session::new(1);
    op_kv_set(&mut store, &session, s("k"), s("v1")).unwrap();
    op_kv_set(&mut store, &session, s("k"), s("v2")).unwrap();
    assert_eq!(op_kv_get(&store, &session, "k"), Ok(Some(s("v2"))));
    let all = op_kv_all(&store, &session).unwrap();
    assert_eq!(all, vec![(s("k"), s("v2"))]);
}

#[test]
fn set_delete_then_get_is_absent() {
    let mut store = store_with(&[(7, 1, "default")]);
    let session = Session::new(1);
    op_kv_set(&mut store, &session, s("k"), s("v")).unwrap();
    op_kv_delete(&mut store, &session, "k").unwrap();
    assert_eq!(op_kv_get(&store, &session, "k"), Ok(None));
}

#[test]
fn get_of_missing_key_is_absent_not_empty() {
    let store = store_with(&[(7, 1, "default")]);
    assert_eq!(op_kv_get(&store, &Session::new(1), "nothing"), Ok(None));
}

#[test]
fn delete_of_missing_key_is_no_op() {
    let mut store = store_with(&[(7, 1, "default")]);
    let session = Session::new(1);
    op_kv_set(&mut store, &session, s("a"), s("1")).unwrap();
    assert_eq!(op_kv_delete(&mut store, &session, "b"), Ok(()));
    assert_eq!(op_kv_get(&store, &session, "a"), Ok(Some(s("1"))));
}

#[test]
fn clear_then_all_is_empty() {
    let mut store = store_with(&[(7, 1, "default")]);
    let session = Session::new(1);
    op_kv_set(&mut store, &session, s("a"), s("1")).unwrap();
    op_kv_set(&mut store, &session, s("b"), s("2")).unwrap();
    op_kv_clear(&mut store, &session).unwrap();
    assert_eq!(op_kv_all(&store, &session), Ok(vec![]));
}

#[test]
fn clear_leaves_other_tenants_alone() {
    let mut store = store_with(&[(7, 1, "default"), (8, 2, "default")]);
    let alice = Session::new(1);
    let bob = Session::new(2);
    op_kv_set(&mut store, &alice, s("a"), s("1")).unwrap();
    op_kv_set(&mut store, &bob, s("a"), s("2")).unwrap();
    op_kv_clear(&mut store, &alice).unwrap();
    assert_eq!(op_kv_get(&store, &alice, "a"), Ok(None));
    assert_eq!(op_kv_get(&store, &bob, "a"), Ok(Some(s("2"))));
}

#[test]
fn tenants_see_only_their_own_namespace() {
    let mut store = store_with(&[(7, 1, "default"), (8, 2, "default")]);
    op_kv_set(&mut store, &Session::new(1), s("x"), s("mine")).unwrap();
    assert_eq!(op_kv_get(&store, &Session::new(2), "x"), Ok(None));
    assert_eq!(op_kv_all(&store, &Session::new(2)), Ok(vec![]));
}

#[test]
fn all_lists_each_key_once() {
    let mut store = store_with(&[(7, 1, "default")]);
    let session = Session::new(1);
    op_kv_set(&mut store, &session, s("a"), s("1")).unwrap();
    op_kv_set(&mut store, &session, s("b"), s("2")).unwrap();
    op_kv_set(&mut store, &session, s("a"), s("3")).unwrap();
    let mut all = op_kv_all(&store, &session).unwrap();
    all.sort();
    assert_eq!(all, vec![(s("a"), s("3")), (s("b"), s("2"))]);
}

#[test]
fn missing_default_namespace_fails() {
    let mut store = store_with(&[(7, 1, "other")]);
    let session = Session::new(1);
    assert_eq!(get_namespace(&store, &session), Err(KvError::MissingNamespace));
    assert_eq!(op_kv_set(&mut store, &session, s("a"), s("1")), Err(KvError::MissingNamespace));
    assert_eq!(op_kv_get(&store, &session, "a"), Err(KvError::MissingNamespace));
    assert_eq!(op_kv_delete(&mut store, &session, "a"), Err(KvError::MissingNamespace));
    assert_eq!(op_kv_clear(&mut store, &session), Err(KvError::MissingNamespace));
    assert_eq!(op_kv_all(&store, &session), Err(KvError::MissingNamespace));
}

#[test]
fn default_namespace_is_found_among_others() {
    let store = store_with(&[(3, 1, "other"), (4, 2, "default"), (5, 1, "default")]);
    assert_eq!(get_namespace(&store, &Session::new(1)), Ok(5));
}

#[test]
fn serial_writes_follow_last_writer() {
    let mut store = store_with(&[(7, 1, "default")]);
    let session = Session::new(1);
    op_kv_set(&mut store, &session, s("a"), s("1")).unwrap();
    op_kv_set(&mut store, &session, s("b"), s("2")).unwrap();
    op_kv_delete(&mut store, &session, "a").unwrap();
    op_kv_set(&mut store, &session, s("b"), s("3")).unwrap();
    op_kv_clear(&mut store, &session).unwrap();
    op_kv_set(&mut store, &session, s("a"), s("4")).unwrap();
    assert_eq!(op_kv_get(&store, &session, "a"), Ok(Some(s("4"))));
    assert_eq!(op_kv_get(&store, &session, "b"), Ok(None));
}
