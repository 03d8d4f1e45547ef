//! Basket creation, loading, visibility and listing.

use baskethub::basket::{Basket, CreateError, NewBasketForm};
use baskethub::db::Db;
use baskethub::user::AuthUser;

fn seeded() -> (Db, AuthUser) {
    let mut db = Db::new();
    let hash = pwhash::bcrypt::hash("pw").unwrap();
    db.add_user("alice".to_string(), None, Some(hash.clone()), None)
        .unwrap();
    db.add_user("bob".to_string(), None, Some(hash), None).unwrap();
    let alice = AuthUser::login("alice", "pw", &db).unwrap();
    (db, alice)
}

fn form(owner: &str, name: &str, public: bool) -> NewBasketForm {
    NewBasketForm {
        owner: owner.to_string(),
        name: name.to_string(),
        description: String::new(),
        is_public: public,
        kind: "code".to_string(),
    }
}

#[test]
fn create_checks_permission_then_name() {
    let (mut db, alice) = seeded();
    assert!(matches!(
        Basket::create(form("bob", "theirs", true), &alice, &mut db),
        Err(CreateError::NoPermission { .. })
    ));
    assert!(matches!(
        Basket::create(form("alice", "", true), &alice, &mut db),
        Err(CreateError::NameEmpty)
    ));
    assert!(matches!(
        Basket::create(form("alice", "bad name", true), &alice, &mut db),
        Err(CreateError::NameInvalid)
    ));
    let b = Basket::create(form("alice", "mine", true), &alice, &mut db).unwrap();
    assert_eq!(b.owner(), "alice");
    assert_eq!(b.record().name(), "mine");
    assert!(b.record().is_public());
    assert_eq!(b.url(), "/alice/mine");
    assert_eq!(b.store_path(), "repos/alice/mine");
}

#[test]
fn create_race_exactly_one_winner() {
    let (mut db, alice) = seeded();
    let first = Basket::create(form("alice", "same", true), &alice, &mut db);
    let second = Basket::create(form("alice", "same", false), &alice, &mut db);
    assert!(first.is_ok());
    assert!(matches!(second, Err(CreateError::NameAlreadyUsed)));
}

#[test]
fn description_is_trimmed_and_nullified() {
    let (mut db, alice) = seeded();
    let mut f = form("alice", "described", true);
    f.description = "  a fine basket \n".to_string();
    let b = Basket::create(f, &alice, &mut db).unwrap();
    assert_eq!(b.record().description(), Some("a fine basket"));

    let mut g = form("alice", "blank", true);
    g.description = "   \t ".to_string();
    let c = Basket::create(g, &alice, &mut db).unwrap();
    assert_eq!(c.record().description(), None);

    // the whole Unicode white-space set is trimmed, as the standard trim does
    let mut h = form("alice", "unicode-ws", true);
    h.description = "\u{a0}\u{2003}wide\u{0c}\u{2028}".to_string();
    let d = Basket::create(h, &alice, &mut db).unwrap();
    assert_eq!(d.record().description(), Some("wide"));
    assert_eq!(d.record().description(), Some(h_expected().as_str()));
}

fn h_expected() -> String {
    "\u{a0}\u{2003}wide\u{0c}\u{2028}".trim().to_string()
}

#[test]
fn private_basket_is_indistinguishable_from_absent() {
    let (mut db, alice) = seeded();
    Basket::create(form("alice", "priv-basket", false), &alice, &mut db).unwrap();
    // anonymous: private and nonexistent look the same
    assert!(Basket::load("priv-basket", "alice", None, &db).is_none());
    assert!(Basket::load("nonexistent", "alice", None, &db).is_none());
    // the owner sees it
    assert!(Basket::load("priv-basket", "alice", Some(&alice), &db).is_some());
    // another identity does not
    let bob = AuthUser::login("bob", "pw", &db).unwrap();
    assert!(Basket::load("priv-basket", "alice", Some(&bob), &db).is_none());
}

#[test]
fn public_basket_is_visible_to_everyone() {
    let (mut db, alice) = seeded();
    Basket::create(form("alice", "pub-basket", true), &alice, &mut db).unwrap();
    assert!(Basket::load("pub-basket", "alice", None, &db).is_some());
    let bob = AuthUser::login("bob", "pw", &db).unwrap();
    assert!(Basket::load("pub-basket", "alice", Some(&bob), &db).is_some());
}

#[test]
fn listing_filters_by_visibility() {
    let (mut db, alice) = seeded();
    Basket::create(form("alice", "open", true), &alice, &mut db).unwrap();
    Basket::create(form("alice", "hidden", false), &alice, &mut db).unwrap();
    let owner = alice.pub_user().clone();

    let seen_by_owner = owner.baskets(Some(&alice), &db);
    assert_eq!(seen_by_owner.len(), 2);

    let seen_anonymously = owner.baskets(None, &db);
    assert_eq!(seen_anonymously.len(), 1);
    assert_eq!(seen_anonymously[0].record().name(), "open");

    let bob = AuthUser::login("bob", "pw", &db).unwrap();
    let seen_by_bob = owner.baskets(Some(&bob), &db);
    assert_eq!(seen_by_bob.len(), 1);
}

#[test]
fn create_error_messages() {
    let e = CreateError::NoPermission {
        owner: "carol".to_string(),
    };
    assert_eq!(
        e.message(),
        "You don't have the permission to create a basket for 'carol'!"
    );
    assert_eq!(
        CreateError::NameEmpty.message(),
        "The basket's name can't be empty!"
    );
    assert!(CreateError::NameInvalid.message().contains("invalid characters"));
    assert!(CreateError::NameAlreadyUsed.message().contains("already exists"));
}
