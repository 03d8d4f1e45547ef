//! The read API over the object graph: each endpoint loads the basket
//! (applying the view permission, with denial indistinguishable from
//! absence), validates caller-supplied ids before any store lookup, and
//! resolves refs, trees, paths and blobs to plain response values.

use vstd::prelude::*;
use crate::basket::{spec_load, Basket};
use crate::collaborators::{base64_encode, base64_of, hex_decoded, hex_of};
use crate::db::Db;
use crate::permissions::actor_view;
use crate::resolve::{
    lookup_path, read_blob, resolve_ref_id, spec_lookup_path, spec_read_blob, spec_resolve_ref,
    well_formed_id, PathError, RefError,
};
use crate::store::{object_with_id, Entry, EntryV, Object, ObjectV, Store};
use crate::user::{clone_opt_string, opt_view, AuthUser};

verus! {

/// An API outcome: a payload, or one of the failure classes the transport
/// layer maps onto status codes.
pub enum ApiResponse<T> {
    Success(T),
    BadRequest { msg: String },
    Unauthorized { msg: String },
    NotFound,
    InternalServerError,
}

impl<T> ApiResponse<T> {
    /// The status code this outcome is reported under.
    pub fn status_code(&self) -> (r: u16)
        ensures
            match self {
                ApiResponse::Success(_) => r == 200,
                ApiResponse::BadRequest { .. } => r == 400,
                ApiResponse::Unauthorized { .. } => r == 401,
                ApiResponse::NotFound => r == 404,
                ApiResponse::InternalServerError => r == 500,
            },
    {
        match self {
            ApiResponse::Success(_) => 200,
            ApiResponse::BadRequest { .. } => 400,
            ApiResponse::Unauthorized { .. } => 401,
            ApiResponse::NotFound => 404,
            ApiResponse::InternalServerError => 500,
        }
    }
}

/// A request for the listing of a tree: the basket locator, the tree's id in
/// hexadecimal, and a display prefix the caller tracks.
pub struct TreeReq {
    pub username: String,
    pub basket: String,
    pub id: String,
    pub prefix: String,
}

/// Specification view of one listed entry.
pub struct TreeEntryV {
    pub id: Seq<char>,
    pub filename: Seq<char>,
}

/// One listed child of a tree: its id in hexadecimal and its name.
pub struct TreeEntry {
    pub id: String,
    pub filename: String,
}

impl View for TreeEntry {
    type V = TreeEntryV;

    open spec fn view(&self) -> TreeEntryV {
        TreeEntryV { id: self.id@, filename: self.filename@ }
    }
}

/// The listing of a tree's direct children, in storage order.
pub struct TreeResponse {
    pub entries: Vec<TreeEntry>,
}

/// A request for the commit a ref points at.
pub struct CommitReq {
    pub username: String,
    pub basket: String,
    pub reference: String,
}

/// A commit summary: its id, its root tree's id, and its message.
pub struct CommitResponse {
    pub id: String,
    pub tree_id: String,
    pub message: Option<String>,
}

/// A request for a blob's contents.
pub struct BlobReq {
    pub username: String,
    pub basket: String,
    pub id: String,
}

/// A blob's contents, base64-encoded for the transport boundary.
pub struct BlobResponse {
    pub data: String,
}

/// A request for the entry a path within a commit's tree names.
pub struct TreeEntryReq {
    pub username: String,
    pub basket: String,
    pub commit_ref: String,
    pub path: String,
}

/// What a path resolves to: a tree's listing, or a blob's contents.
pub enum TreeEntryResponse {
    Tree { entries: Vec<TreeEntry> },
    Blob { content: String },
}

/// Renders each entry as its hexadecimal id and its name, keeping order.
fn summarize_entries(entries: &Vec<Entry>) -> (r: Vec<TreeEntry>)
    ensures
        r@.len() == entries@.len(),
        forall|i: int|
            0 <= i < entries@.len() ==> (#[trigger] r@[i])@.id == hex_of(entries@[i]@.id)
                && r@[i]@.filename == entries@[i]@.name,
{
    let mut out: Vec<TreeEntry> = Vec::new();
    let n = entries.len();
    let mut i: usize = 0;
    while i < n
        invariant
            i <= n,
            n == entries@.len(),
            out@.len() == i,
            forall|k: int|
                0 <= k < i ==> (#[trigger] out@[k])@.id == hex_of(entries@[k]@.id)
                    && out@[k]@.filename == entries@[k]@.name,
        decreases n - i,
    {
        let e = &entries[i];
        out.push(TreeEntry { id: e.id.to_hex(), filename: e.name.clone() });
        i = i + 1;
    }
    out
}

/// Lists the direct children of the tree whose id the request names.
/// `NotFound` hides absent and unviewable baskets alike; a malformed id is
/// rejected before the store is consulted; a well-formed id that names no
/// stored tree is the caller's error and is answered as such.
pub fn tree(msg: &TreeReq, db: &Db, store: &Store, auth_user: Option<&AuthUser>) -> (r:
    ApiResponse<TreeResponse>)
    requires
        db@.wf(),
        store@.wf(),
    ensures
        match r {
            ApiResponse::NotFound => spec_load(
                db@,
                msg.basket@,
                msg.username@,
                actor_view(auth_user),
            ) is None,
            ApiResponse::BadRequest { msg: m } => {
                &&& spec_load(db@, msg.basket@, msg.username@, actor_view(auth_user)) is Some
                &&& if !well_formed_id(msg.id@) {
                    m@ == "invalid id"@
                } else {
                    (match object_with_id(store@.objects, hex_decoded(msg.id@)) {
                        Some(slot) => !(slot.obj is Tree),
                        None => true,
                    }) && m@ == "oid does not reference a tree"@
                }
            },
            ApiResponse::Success(tr) => {
                &&& spec_load(db@, msg.basket@, msg.username@, actor_view(auth_user)) is Some
                &&& well_formed_id(msg.id@)
                &&& object_with_id(store@.objects, hex_decoded(msg.id@)) matches Some(slot) && (
                slot.obj matches ObjectV::Tree(es) && tr.entries@.len() == es.len() && forall|
                    i: int,
                |
                    0 <= i < es.len() ==> (#[trigger] tr.entries@[i])@.id == hex_of(es[i].id)
                        && tr.entries@[i]@.filename == es[i].name)
            },
            ApiResponse::InternalServerError => false,
            ApiResponse::Unauthorized { .. } => false,
        },
{
    match Basket::load(msg.basket.as_str(), msg.username.as_str(), auth_user, db) {
        None => ApiResponse::NotFound,
        Some(_) => {
            match crate::resolve::parse_object_id(msg.id.as_str()) {
                Err(_) => ApiResponse::BadRequest { msg: String::from_str("invalid id") },
                Ok(tree_id) => {
                    match store.get_object(&tree_id) {
                        Some(Object::Tree(t)) => ApiResponse::Success(
                            TreeResponse { entries: summarize_entries(&t.entries) },
                        ),
                        _ => ApiResponse::BadRequest {
                            msg: String::from_str("oid does not reference a tree"),
                        },
                    }
                },
            }
        },
    }
}

/// Resolves a ref to its commit and summarizes it. `BadRequest` both for
/// an unknown ref and for a ref that does not point at a commit, with
/// distinct messages.
pub fn commit(msg: &CommitReq, db: &Db, store: &Store, auth_user: Option<&AuthUser>) -> (r:
    ApiResponse<CommitResponse>)
    requires
        db@.wf(),
        store@.wf(),
    ensures
        match r {
            ApiResponse::NotFound => spec_load(
                db@,
                msg.basket@,
                msg.username@,
                actor_view(auth_user),
            ) is None,
            ApiResponse::BadRequest { msg: m } => {
                &&& spec_load(db@, msg.basket@, msg.username@, actor_view(auth_user)) is Some
                &&& match spec_resolve_ref(store@, msg.reference@) {
                    Err(RefError::UnknownRef) => m@ == "invalid reference name"@,
                    Err(RefError::NotACommit) => m@ == "reference does not point to a commit"@,
                    Ok(_) => false,
                }
            },
            ApiResponse::Success(cr) => {
                &&& spec_load(db@, msg.basket@, msg.username@, actor_view(auth_user)) is Some
                &&& spec_resolve_ref(store@, msg.reference@) matches Ok(c) && (
                crate::store::ref_with_name(store@.refs, msg.reference@) matches Some(rv)
                    && cr.id@ == hex_of(rv.target) && cr.tree_id@ == hex_of(c.tree_id) && opt_view(
                    cr.message,
                ) == c.message)
            },
            _ => false,
        },
{
    match Basket::load(msg.basket.as_str(), msg.username.as_str(), auth_user, db) {
        None => ApiResponse::NotFound,
        Some(_) => {
            match resolve_ref_id(store, msg.reference.as_str()) {
                Err(RefError::UnknownRef) => ApiResponse::BadRequest {
                    msg: String::from_str("invalid reference name"),
                },
                Err(RefError::NotACommit) => ApiResponse::BadRequest {
                    msg: String::from_str("reference does not point to a commit"),
                },
                Ok((id, c)) => ApiResponse::Success(
                    CommitResponse {
                        id: id.to_hex(),
                        tree_id: c.tree_id.to_hex(),
                        message: clone_opt_string(&c.message),
                    },
                ),
            }
        },
    }
}

/// Reads a blob and hands its bytes out base64-encoded. A malformed id is
/// rejected before the store is consulted; an id naming no blob is a
/// `BadRequest`.
pub fn blob(msg: &BlobReq, db: &Db, store: &Store, auth_user: Option<&AuthUser>) -> (r:
    ApiResponse<BlobResponse>)
    requires
        db@.wf(),
        store@.wf(),
    ensures
        match r {
            ApiResponse::NotFound => spec_load(
                db@,
                msg.basket@,
                msg.username@,
                actor_view(auth_user),
            ) is None,
            ApiResponse::BadRequest { msg: m } => {
                &&& spec_load(db@, msg.basket@, msg.username@, actor_view(auth_user)) is Some
                &&& if !well_formed_id(msg.id@) {
                    m@ == "invalid id"@
                } else {
                    spec_read_blob(store@, hex_decoded(msg.id@)) is Err && m@
                        == "oid does not reference a blob"@
                }
            },
            ApiResponse::Success(br) => {
                &&& spec_load(db@, msg.basket@, msg.username@, actor_view(auth_user)) is Some
                &&& well_formed_id(msg.id@)
                &&& spec_read_blob(store@, hex_decoded(msg.id@)) matches Ok(d) && br.data@
                    == base64_of(d)
            },
            _ => false,
        },
{
    match Basket::load(msg.basket.as_str(), msg.username.as_str(), auth_user, db) {
        None => ApiResponse::NotFound,
        Some(_) => {
            match crate::resolve::parse_object_id(msg.id.as_str()) {
                Err(_) => ApiResponse::BadRequest { msg: String::from_str("invalid id") },
                Ok(id) => {
                    match read_blob(store, &id) {
                        Ok(data) => ApiResponse::Success(
                            BlobResponse { data: base64_encode(&data) },
                        ),
                        Err(_) => ApiResponse::BadRequest {
                            msg: String::from_str("oid does not reference a blob"),
                        },
                    }
                },
            }
        },
    }
}

/// Resolves a ref to a commit, then a path within the commit's tree, and
/// answers with the listing of the tree it names, or the contents of the
/// blob it names. The empty path names the commit's root tree.
pub fn tree_entry(msg: &TreeEntryReq, db: &Db, store: &Store, auth_user: Option<&AuthUser>) -> (r:
    ApiResponse<TreeEntryResponse>)
    requires
        db@.wf(),
        store@.wf(),
    ensures
        match r {
            ApiResponse::NotFound => spec_load(
                db@,
                msg.basket@,
                msg.username@,
                actor_view(auth_user),
            ) is None,
            ApiResponse::BadRequest { msg: m } => {
                &&& spec_load(db@, msg.basket@, msg.username@, actor_view(auth_user)) is Some
                &&& match spec_resolve_ref(store@, msg.commit_ref@) {
                    Err(RefError::UnknownRef) => m@ == "invalid reference name"@,
                    Err(RefError::NotACommit) => m@ == "reference does not point to a commit"@,
                    Ok(c) => spec_lookup_path(store@, c.tree_id, msg.path@) is Err && m@
                        == "path not found"@,
                }
            },
            ApiResponse::Success(resp) => {
                &&& spec_load(db@, msg.basket@, msg.username@, actor_view(auth_user)) is Some
                &&& spec_resolve_ref(store@, msg.commit_ref@) matches Ok(c) && (spec_lookup_path(
                    store@,
                    c.tree_id,
                    msg.path@,
                ) matches Ok(entry) && (match resp {
                    TreeEntryResponse::Tree { entries } => object_with_id(
                        store@.objects,
                        entry.id,
                    ) matches Some(slot) && (slot.obj matches ObjectV::Tree(es) && entries@.len()
                        == es.len() && forall|i: int|
                        0 <= i < es.len() ==> (#[trigger] entries@[i])@.id == hex_of(es[i].id)
                            && entries@[i]@.filename == es[i].name),
                    TreeEntryResponse::Blob { content } => object_with_id(
                        store@.objects,
                        entry.id,
                    ) matches Some(slot) && (slot.obj matches ObjectV::Blob(d) && content@
                        == base64_of(d)),
                }))
            },
            ApiResponse::InternalServerError => {
                &&& spec_load(db@, msg.basket@, msg.username@, actor_view(auth_user)) is Some
                &&& spec_resolve_ref(store@, msg.commit_ref@) matches Ok(c) && (spec_lookup_path(
                    store@,
                    c.tree_id,
                    msg.path@,
                ) matches Ok(entry) && (match object_with_id(store@.objects, entry.id) {
                    Some(slot) => slot.obj is Commit,
                    None => true,
                }))
            },
            ApiResponse::Unauthorized { .. } => false,
        },
{
    match Basket::load(msg.basket.as_str(), msg.username.as_str(), auth_user, db) {
        None => ApiResponse::NotFound,
        Some(_) => {
            match resolve_ref_id(store, msg.commit_ref.as_str()) {
                Err(RefError::UnknownRef) => ApiResponse::BadRequest {
                    msg: String::from_str("invalid reference name"),
                },
                Err(RefError::NotACommit) => ApiResponse::BadRequest {
                    msg: String::from_str("reference does not point to a commit"),
                },
                Ok((_, c)) => {
                    match lookup_path(store, &c.tree_id, msg.path.as_str()) {
                        Err(PathError::PathNotFound) => ApiResponse::BadRequest {
                            msg: String::from_str("path not found"),
                        },
                        Ok(entry) => {
                            match store.get_object(&entry.id) {
                                Some(Object::Tree(t)) => ApiResponse::Success(
                                    TreeEntryResponse::Tree {
                                        entries: summarize_entries(&t.entries),
                                    },
                                ),
                                Some(Object::Blob(d)) => ApiResponse::Success(
                                    TreeEntryResponse::Blob { content: base64_encode(d) },
                                ),
                                _ => ApiResponse::InternalServerError,
                            }
                        },
                    }
                },
            }
        },
    }
}

} // verus!
