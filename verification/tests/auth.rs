//! Names, permissions, login and the session round trip.

use baskethub::basket::is_valid_name;
use baskethub::db::Db;
use baskethub::permissions::{has_permission, UserAction};
use baskethub::user::{AuthUser, LoginError, PubUser};

fn seeded_db() -> Db {
    let mut db = Db::new();
    let hash = pwhash::bcrypt::hash("open sesame").unwrap();
    let alice = db
        .add_user(
            "alice".to_string(),
            Some("Alice".to_string()),
            Some(hash),
            None,
        )
        .unwrap();
    assert!(db.add_email("alice@example.org".to_string(), alice));
    let _bob = db
        .add_user("bob".to_string(), None, None, Some("hi".to_string()))
        .unwrap();
    db
}

#[test]
fn valid_names_pass_the_charset_rule() {
    assert!(is_valid_name("a"));
    assert!(is_valid_name("Basket-01"));
    assert!(is_valid_name("z9"));
    let long_ok: String = "a".repeat(125);
    assert!(is_valid_name(&long_ok));
}

#[test]
fn invalid_names_fail_the_charset_rule() {
    assert!(!is_valid_name("-leading"));
    assert!(!is_valid_name("has space"));
    assert!(!is_valid_name("under_score"));
    assert!(!is_valid_name("uml\u{00e4}ut"));
    let too_long: String = "a".repeat(126);
    assert!(!is_valid_name(&too_long));
}

#[test]
fn login_by_username_and_email() {
    let db = seeded_db();
    let by_name = AuthUser::login("alice", "open sesame", &db).unwrap();
    assert_eq!(by_name.username(), "alice");
    let by_mail = AuthUser::login("alice@example.org", "open sesame", &db).unwrap();
    assert_eq!(by_mail.username(), "alice");
}

#[test]
fn login_failures_are_distinguished() {
    let db = seeded_db();
    assert!(matches!(
        AuthUser::login("nobody", "x", &db),
        Err(LoginError::UserNotFound)
    ));
    assert!(matches!(
        AuthUser::login("alice", "wrong password", &db),
        Err(LoginError::PasswordIncorrect)
    ));
    assert!(matches!(
        AuthUser::login("bob", "anything", &db),
        Err(LoginError::NoPasswordSet)
    ));
    assert!(matches!(
        AuthUser::login("no such mail@example.org", "x", &db),
        Err(LoginError::UserNotFound)
    ));
}

#[test]
fn session_round_trip() {
    let mut db = seeded_db();
    let mut alice = AuthUser::login("alice", "open sesame", &db).unwrap();
    let token = alice.create_session(&mut db, 1700000000).unwrap();
    assert_eq!(token.len(), 32);
    assert!(token.chars().all(|c| c.is_ascii_hexdigit()));

    let resolved = AuthUser::resolve(&token, &db).unwrap();
    assert_eq!(resolved.username(), "alice");
    assert_eq!(
        resolved.session.as_ref().unwrap().id,
        alice.session.as_ref().unwrap().id
    );

    alice.end_session(&mut db);
    assert!(AuthUser::resolve(&token, &db).is_none());
    // ending an already-ended session changes nothing
    alice.end_session(&mut db);
    assert!(AuthUser::resolve(&token, &db).is_none());
}

#[test]
fn malformed_tokens_resolve_to_anonymous() {
    let db = seeded_db();
    assert!(AuthUser::resolve("", &db).is_none());
    assert!(AuthUser::resolve("zz", &db).is_none());
    assert!(AuthUser::resolve("abc", &db).is_none());
    // valid hex of the wrong size
    assert!(AuthUser::resolve("aabb", &db).is_none());
    assert!(AuthUser::resolve(&"ab".repeat(17), &db).is_none());
}

#[test]
fn two_sessions_get_distinct_tokens() {
    let mut db = seeded_db();
    let mut a = AuthUser::login("alice", "open sesame", &db).unwrap();
    let t1 = a.create_session(&mut db, 1).unwrap();
    let t2 = a.create_session(&mut db, 2).unwrap();
    assert_ne!(t1, t2);
    assert!(AuthUser::resolve(&t1, &db).is_some());
    assert!(AuthUser::resolve(&t2, &db).is_some());
}

#[test]
fn permission_policy() {
    let db = seeded_db();
    let alice = AuthUser::login("alice", "open sesame", &db).unwrap();
    let create_for_alice = UserAction::CreateBasket {
        owner: "alice".to_string(),
    };
    let create_for_bob = UserAction::CreateBasket {
        owner: "bob".to_string(),
    };
    assert!(has_permission(Some(&alice), &create_for_alice));
    assert!(!has_permission(Some(&alice), &create_for_bob));
    assert!(!has_permission(None, &create_for_alice));
}

#[test]
fn login_error_descriptions() {
    assert_eq!(
        LoginError::UserNotFound.description(),
        "Username/email address not found."
    );
    assert_eq!(
        LoginError::PasswordIncorrect.description(),
        "Incorrect password."
    );
    assert!(LoginError::NoPasswordSet.description().contains("cannot be authenticated"));
}

#[test]
fn pub_user_lookup_and_accessors() {
    let db = seeded_db();
    let alice = PubUser::from_username("alice", &db).unwrap();
    assert_eq!(alice.username(), "alice");
    assert_eq!(alice.name(), Some("Alice"));
    assert_eq!(alice.bio(), None);
    assert!(PubUser::from_username("nobody", &db).is_none());
    assert!(PubUser::from_username("-bad-", &db).is_none());
}
