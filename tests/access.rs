use edge_workers::app::{has_parent_ref, is_within, unpack_dir, App};
use edge_workers::auth::{
    authorize_access, is_admin, Body, Claims, CredentialCheck, Error, Payload, User, UserRecord,
    TOKEN_EXPIRY,
};
use edge_workers::session::Session;

#[test]
fn unpack_dir_names_tenant_id() {
    assert_eq!(unpack_dir("/tmp/homebrew-workers", 42), "/tmp/homebrew-workers/42");
    assert_eq!(unpack_dir("/r", 0), "/r/0");
    assert_eq!(unpack_dir("/r", -7), "/r/-7");
    assert_eq!(unpack_dir("/r", 2147483647), "/r/2147483647");
    assert_eq!(unpack_dir("/r", -2147483648), "/r/-2147483648");
}

#[test]
fn worker_reads_only_its_own_directory() {
    let app = App::new(
        Session::new(3),
        "alpha".to_string(),
        "/tmp/w/3".to_string(),
        "main.js".to_string(),
        "k".to_string(),
    );
    let perms = app.permissions();
    assert!(perms.may_read("/tmp/w/3"));
    assert!(perms.may_read("/tmp/w/3/main.js"));
    assert!(perms.may_read("/tmp/w/3/lib/util.js"));
    assert!(!perms.may_read("/tmp/w/30/main.js"));
    assert!(!perms.may_read("/tmp/w/4/main.js"));
    assert!(!perms.may_read("/tmp/w/3/../4/main.js"));
    assert!(!perms.may_read("/etc/passwd"));
    assert!(perms.allow_net.as_ref().map(|v| v.is_empty()).unwrap_or(false));
    assert!(perms.allow_env.is_none() && perms.allow_write.is_none() && perms.allow_run.is_none());
    assert!(perms.allow_ffi.is_none() && !perms.allow_hrtime && !perms.prompt);
}

#[test]
fn script_path_joins_directory_and_entry() {
    let app = App::new(
        Session::new(3),
        "alpha".to_string(),
        "/tmp/w/3".to_string(),
        "main.js".to_string(),
        "k".to_string(),
    );
    assert_eq!(app.script_path(), "/tmp/w/3/main.js");
}

#[test]
fn path_helpers() {
    assert!(is_within("/a/b", "/a/b"));
    assert!(is_within("/a/b", "/a/b/c"));
    assert!(!is_within("/a/b", "/a/bc"));
    assert!(!is_within("/a/b", "/a"));
    assert!(has_parent_ref(".."));
    assert!(has_parent_ref("/a/../b"));
    assert!(has_parent_ref("/a/.."));
    assert!(!has_parent_ref("/a/..b/c"));
    assert!(!has_parent_ref("/a/b.."));
}

#[test]
fn body_is_a_bearer_token() {
    let b = Body::new("tok".to_string());
    assert_eq!(b.access_token(), "tok");
    assert_eq!(b.token_type(), "Bearer");
}

#[test]
fn credentials_are_checked() {
    let admin = Payload::new("id".to_string(), "secret".to_string());
    assert_eq!(admin.check("id", "secret"), CredentialCheck::Admin);
    let half = Payload::new("id".to_string(), "other".to_string());
    assert_eq!(half.check("id", "secret"), CredentialCheck::LookUp);
    let other_half = Payload::new("x".to_string(), "secret".to_string());
    assert_eq!(other_half.check("id", "secret"), CredentialCheck::LookUp);
    let empty = Payload::new("".to_string(), "secret".to_string());
    assert_eq!(empty.check("id", "secret"), CredentialCheck::Missing);
    assert_eq!(empty.client_id(), "");
    assert_eq!(empty.client_secret(), "secret");
}

#[test]
fn access_rules() {
    let own = Claims::for_user(5);
    assert_eq!(own.exp, TOKEN_EXPIRY);
    assert_eq!(authorize_access(5, Some(&own)), Ok(()));
    assert_eq!(authorize_access(6, Some(&own)), Err(Error::Unauthorized));
    let admin = Claims::admin();
    assert_eq!(admin.sub, 0);
    assert_eq!(authorize_access(6, Some(&admin)), Ok(()));
    assert_eq!(authorize_access(6, None), Err(Error::Unauthorized));
    assert!(is_admin(Some(&admin)));
    assert!(!is_admin(Some(&own)));
    assert!(!is_admin(None));
}

#[test]
fn refusals_answer_with_status_and_message() {
    assert_eq!(Error::NotFound.into_response(), (404, "This user doesn't exist".to_string()));
    assert_eq!(
        Error::Unauthorized.into_response(),
        (401, "Not authorized to access this user".to_string())
    );
}

#[test]
fn user_lookup() {
    let rec = UserRecord {
        id: 1,
        name: "alpha".to_string(),
        client_id: "c".to_string(),
        client_secret: "s".to_string(),
        latest_deployment: None,
    };
    match User::from_lookup(Some(rec)) {
        Ok(User(u)) => assert_eq!(u.name, "alpha"),
        Err(_) => panic!("expected the account"),
    }
    assert!(matches!(User::from_lookup(None), Err(Error::NotFound)));
}

use edge_workers::text::{same_text, text_le};

#[test]
fn text_order_is_by_character() {
    assert!(text_le("a", "b"));
    assert!(text_le("ab", "ab"));
    assert!(text_le("ab", "abc"));
    assert!(!text_le("abc", "ab"));
    assert!(!text_le("b", "a"));
    assert!(text_le("", "a"));
    assert!(text_le("Z", "a"));
    assert!(same_text("key", "key"));
    assert!(!same_text("key", "kez"));
    assert!(!same_text("key", "keys"));
}
