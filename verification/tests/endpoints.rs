//! The read API end to end: locator gating, id validation, and the
//! tree/commit/blob/tree-entry responses.

use baskethub::api::{
    blob, commit, tree, tree_entry, ApiResponse, BlobReq, CommitReq, TreeEntryReq,
    TreeEntryResponse, TreeReq,
};
use baskethub::basket::{Basket, NewBasketForm};
use baskethub::context::UserpageTab;
use baskethub::db::Db;
use baskethub::store::Store;
use baskethub::user::AuthUser;

fn world() -> (Db, AuthUser, Store) {
    let mut db = Db::new();
    let hash = pwhash::bcrypt::hash("pw").unwrap();
    db.add_user("alice".to_string(), None, Some(hash), None).unwrap();
    let alice = AuthUser::login("alice", "pw", &db).unwrap();
    let form = NewBasketForm {
        owner: "alice".to_string(),
        name: "code".to_string(),
        description: String::new(),
        is_public: true,
        kind: "code".to_string(),
    };
    Basket::create(form, &alice, &mut db).unwrap();
    let store = Store::bootstrap("alice", 42).unwrap();
    (db, alice, store)
}

#[test]
fn commit_endpoint_reports_the_root_commit() {
    let (db, _alice, store) = world();
    let req = CommitReq {
        username: "alice".to_string(),
        basket: "code".to_string(),
        reference: "HEAD".to_string(),
    };
    match commit(&req, &db, &store, None) {
        ApiResponse::Success(c) => {
            assert_eq!(c.id.len(), 40);
            assert_eq!(c.tree_id.len(), 40);
            assert_eq!(c.message.as_deref(), Some("Initial commit"));
        }
        _ => panic!("expected a commit summary"),
    }
}

#[test]
fn tree_endpoint_lists_the_root_tree() {
    let (db, _alice, store) = world();
    let req = CommitReq {
        username: "alice".to_string(),
        basket: "code".to_string(),
        reference: "HEAD".to_string(),
    };
    let tree_id = match commit(&req, &db, &store, None) {
        ApiResponse::Success(c) => c.tree_id,
        _ => panic!("expected a commit summary"),
    };
    let treq = TreeReq {
        username: "alice".to_string(),
        basket: "code".to_string(),
        id: tree_id,
        prefix: String::new(),
    };
    match tree(&treq, &db, &store, None) {
        ApiResponse::Success(t) => assert_eq!(t.entries.len(), 0),
        _ => panic!("expected a tree listing"),
    }
}

#[test]
fn tree_endpoint_rejects_malformed_ids() {
    let (db, _alice, store) = world();
    let treq = TreeReq {
        username: "alice".to_string(),
        basket: "code".to_string(),
        id: "not-hex".to_string(),
        prefix: String::new(),
    };
    match tree(&treq, &db, &store, None) {
        ApiResponse::BadRequest { msg } => assert_eq!(msg, "invalid id"),
        _ => panic!("expected BadRequest"),
    }
}

#[test]
fn tree_endpoint_rejects_ids_naming_no_tree() {
    let (db, _alice, mut store) = world();
    // a well-formed id that is absent from the store: a caller error, not
    // a server-side fault
    let absent = TreeReq {
        username: "alice".to_string(),
        basket: "code".to_string(),
        id: "ab".repeat(20),
        prefix: String::new(),
    };
    match tree(&absent, &db, &store, None) {
        ApiResponse::BadRequest { msg } => assert_eq!(msg, "oid does not reference a tree"),
        _ => panic!("expected BadRequest"),
    }
    // a well-formed id naming a blob, not a tree
    let blob_id = store.write_blob(b"not a tree".to_vec()).unwrap();
    let wrong_kind = TreeReq {
        username: "alice".to_string(),
        basket: "code".to_string(),
        id: blob_id.to_hex(),
        prefix: String::new(),
    };
    match tree(&wrong_kind, &db, &store, None) {
        ApiResponse::BadRequest { msg } => assert_eq!(msg, "oid does not reference a tree"),
        _ => panic!("expected BadRequest"),
    }
}

#[test]
fn endpoints_hide_unknown_baskets() {
    let (db, _alice, store) = world();
    let req = CommitReq {
        username: "alice".to_string(),
        basket: "no-such".to_string(),
        reference: "HEAD".to_string(),
    };
    assert!(matches!(
        commit(&req, &db, &store, None),
        ApiResponse::NotFound
    ));
}

#[test]
fn commit_endpoint_distinguishes_bad_refs() {
    let (db, _alice, mut store) = world();
    let req = CommitReq {
        username: "alice".to_string(),
        basket: "code".to_string(),
        reference: "nope".to_string(),
    };
    match commit(&req, &db, &store, None) {
        ApiResponse::BadRequest { msg } => assert_eq!(msg, "invalid reference name"),
        _ => panic!("expected BadRequest"),
    }
    let blob_id = store.write_blob(b"x".to_vec()).unwrap();
    store.set_ref("side".to_string(), blob_id);
    let req2 = CommitReq {
        username: "alice".to_string(),
        basket: "code".to_string(),
        reference: "side".to_string(),
    };
    match commit(&req2, &db, &store, None) {
        ApiResponse::BadRequest { msg } => {
            assert_eq!(msg, "reference does not point to a commit")
        }
        _ => panic!("expected BadRequest"),
    }
}

#[test]
fn blob_endpoint_encodes_contents_as_base64() {
    let (db, _alice, mut store) = world();
    let id = store.write_blob(b"hello".to_vec()).unwrap();
    let req = BlobReq {
        username: "alice".to_string(),
        basket: "code".to_string(),
        id: id.to_hex(),
    };
    match blob(&req, &db, &store, None) {
        ApiResponse::Success(b) => assert_eq!(b.data, "aGVsbG8="),
        _ => panic!("expected blob contents"),
    }
    let bad = BlobReq {
        username: "alice".to_string(),
        basket: "code".to_string(),
        id: "zz".to_string(),
    };
    match blob(&bad, &db, &store, None) {
        ApiResponse::BadRequest { msg } => assert_eq!(msg, "invalid id"),
        _ => panic!("expected BadRequest"),
    }
}

#[test]
fn blob_endpoint_rejects_non_blobs() {
    let (db, _alice, store) = world();
    let req = CommitReq {
        username: "alice".to_string(),
        basket: "code".to_string(),
        reference: "HEAD".to_string(),
    };
    let tree_id = match commit(&req, &db, &store, None) {
        ApiResponse::Success(c) => c.tree_id,
        _ => panic!("expected a commit summary"),
    };
    let breq = BlobReq {
        username: "alice".to_string(),
        basket: "code".to_string(),
        id: tree_id,
    };
    match blob(&breq, &db, &store, None) {
        ApiResponse::BadRequest { msg } => assert_eq!(msg, "oid does not reference a blob"),
        _ => panic!("expected BadRequest"),
    }
}

#[test]
fn tree_entry_endpoint_serves_the_root_tree_on_empty_path() {
    let (db, _alice, store) = world();
    let req = TreeEntryReq {
        username: "alice".to_string(),
        basket: "code".to_string(),
        commit_ref: "HEAD".to_string(),
        path: String::new(),
    };
    match tree_entry(&req, &db, &store, None) {
        ApiResponse::Success(TreeEntryResponse::Tree { entries }) => {
            assert_eq!(entries.len(), 0)
        }
        _ => panic!("expected the empty root tree"),
    }
    let missing = TreeEntryReq {
        username: "alice".to_string(),
        basket: "code".to_string(),
        commit_ref: "HEAD".to_string(),
        path: "nothing/here".to_string(),
    };
    match tree_entry(&missing, &db, &store, None) {
        ApiResponse::BadRequest { msg } => assert_eq!(msg, "path not found"),
        _ => panic!("expected BadRequest"),
    }
}

#[test]
fn status_codes_match_outcomes() {
    let ok: ApiResponse<u8> = ApiResponse::Success(1);
    assert_eq!(ok.status_code(), 200);
    let bad: ApiResponse<u8> = ApiResponse::BadRequest {
        msg: "m".to_string(),
    };
    assert_eq!(bad.status_code(), 400);
    let unauth: ApiResponse<u8> = ApiResponse::Unauthorized {
        msg: "m".to_string(),
    };
    assert_eq!(unauth.status_code(), 401);
    let nf: ApiResponse<u8> = ApiResponse::NotFound;
    assert_eq!(nf.status_code(), 404);
    let ise: ApiResponse<u8> = ApiResponse::InternalServerError;
    assert_eq!(ise.status_code(), 500);
}

#[test]
fn userpage_tab_selection() {
    let items = |k: &str, v: &str| vec![(k.to_string(), v.to_string())];
    assert_eq!(
        UserpageTab::from_form_items(&items("tab", "baskets")),
        Ok(UserpageTab::Baskets)
    );
    assert_eq!(
        UserpageTab::from_form_items(&items("tab", "stars")),
        Ok(UserpageTab::Stars)
    );
    assert_eq!(
        UserpageTab::from_form_items(&items("tab", "unknown")),
        Ok(UserpageTab::Overview)
    );
    assert_eq!(
        UserpageTab::from_form_items(&items("other", "baskets")),
        Ok(UserpageTab::Overview)
    );
    assert_eq!(
        UserpageTab::from_form_items(&Vec::new()),
        Ok(UserpageTab::Overview)
    );
    // the first `tab` item decides
    let two = vec![
        ("tab".to_string(), "stars".to_string()),
        ("tab".to_string(), "baskets".to_string()),
    ];
    assert_eq!(UserpageTab::from_form_items(&two), Ok(UserpageTab::Stars));
}
