//! The content-addressed object store: immutable commits, trees and blobs,
//! each identified by the content hash of its serialized bytes, plus named
//! refs pointing at commits. The store only grows; objects are never
//! mutated in place.

use vstd::prelude::*;
use crate::collaborators::{hash_object_bytes, hash_ok, hex_encode, hex_of, oid_of};
use crate::search::first_where;
use crate::user::{clone_opt_string, opt_view};

verus! {

/// A content hash naming one immutable object: twenty raw bytes.
pub struct ObjectId {
    pub bytes: Vec<u8>,
}

impl View for ObjectId {
    type V = Seq<u8>;

    open spec fn view(&self) -> Seq<u8> {
        self.bytes@
    }
}

impl Clone for ObjectId {
    fn clone(&self) -> (r: Self)
        ensures
            r@ == self@,
    {
        ObjectId { bytes: self.bytes.clone() }
    }
}

impl ObjectId {
    /// Well-formed: exactly the hash width.
    pub open spec fn wf(self) -> bool {
        self@.len() == 20
    }

    /// Whether two ids name the same object.
    pub fn eq_id(&self, other: &ObjectId) -> (r: bool)
        ensures
            r == (self@ == other@),
    {
        let r = self.bytes == other.bytes;
        proof {
            if r {
                assert(self.bytes@ =~= other.bytes@);
            } else {
                if self.bytes@ == other.bytes@ {
                    assert(self.bytes@.len() == other.bytes@.len());
                    assert(forall|i: int|
                        0 <= i < self.bytes@.len() ==> self.bytes@[i] == other.bytes@[i]);
                    assert(false);
                }
            }
        }
        r
    }

    /// The lowercase hexadecimal rendering used at the API boundary.
    pub fn to_hex(&self) -> (r: String)
        ensures
            r@ == hex_of(self@),
    {
        hex_encode(&self.bytes)
    }
}

/// What kind of object a tree entry points at.
#[derive(Clone, Copy, PartialEq, Eq, Structural, Debug)]
pub enum EntryKind {
    Tree,
    Blob,
}

/// Specification view of a tree entry.
pub struct EntryV {
    pub name: Seq<char>,
    pub id: Seq<u8>,
    pub kind: EntryKind,
}

/// One child of a tree: a name, the child's object id, and its kind.
pub struct Entry {
    pub name: String,
    pub id: ObjectId,
    pub kind: EntryKind,
}

impl View for Entry {
    type V = EntryV;

    open spec fn view(&self) -> EntryV {
        EntryV { name: self.name@, id: self.id@, kind: self.kind }
    }
}

impl Clone for Entry {
    fn clone(&self) -> (r: Self)
        ensures
            r@ == self@,
    {
        Entry { name: self.name.clone(), id: self.id.clone(), kind: self.kind }
    }
}

/// Specification view of a commit.
pub struct CommitV {
    pub tree_id: Seq<u8>,
    pub parent_ids: Seq<Seq<u8>>,
    pub message: Option<Seq<char>>,
    pub author: Seq<char>,
    pub time: u64,
}

/// A commit: its root tree, ordered parents (empty for a root commit), an
/// optional message, and author metadata with a timestamp.
pub struct Commit {
    pub tree_id: ObjectId,
    pub parent_ids: Vec<ObjectId>,
    pub message: Option<String>,
    pub author: String,
    pub time: u64,
}

impl View for Commit {
    type V = CommitV;

    open spec fn view(&self) -> CommitV {
        CommitV {
            tree_id: self.tree_id@,
            parent_ids: self.parent_ids@.map_values(|p: ObjectId| p@),
            message: opt_view(self.message),
            author: self.author@,
            time: self.time,
        }
    }
}

impl Clone for Commit {
    fn clone(&self) -> (r: Self)
        ensures
            r@ == self@,
    {
        let mut parents: Vec<ObjectId> = Vec::new();
        let n = self.parent_ids.len();
        let mut i: usize = 0;
        while i < n
            invariant
                i <= n,
                n == self.parent_ids.len(),
                parents@.map_values(|p: ObjectId| p@) =~= self.parent_ids@.map_values(
                    |p: ObjectId| p@,
                ).take(i as int),
            decreases n - i,
        {
            let ghost pre = parents@;
            parents.push(self.parent_ids[i].clone());
            proof {
                let ghost target = self.parent_ids@.map_values(|p: ObjectId| p@);
                assert(pre.map_values(|p: ObjectId| p@).len() == i as int);
                assert(parents@ == pre.push(parents@[i as int]));
                assert(parents@[i as int]@ == self.parent_ids@[i as int]@);
                assert forall|j: int|
                    0 <= j < i as int + 1 implies (#[trigger] parents@[j])@ == target.take(
                    i as int + 1,
                )[j] by {
                    if j < i as int {
                        assert(parents@[j] == pre[j]);
                        assert(pre.map_values(|p: ObjectId| p@)[j] == pre[j]@);
                        assert(pre.map_values(|p: ObjectId| p@)[j] == target.take(i as int)[j]);
                    }
                }
                assert(parents@.map_values(|p: ObjectId| p@) =~= target.take(i as int + 1));
            }
            i = i + 1;
        }
        proof {
            assert(self.parent_ids@.map_values(|p: ObjectId| p@).take(n as int)
                =~= self.parent_ids@.map_values(|p: ObjectId| p@));
        }
        Commit {
            tree_id: self.tree_id.clone(),
            parent_ids: parents,
            message: clone_opt_string(&self.message),
            author: self.author.clone(),
            time: self.time,
        }
    }
}

/// A tree: an ordered sequence of uniquely named entries. The order is the
/// storage order and is kept as given.
pub struct Tree {
    pub entries: Vec<Entry>,
}

impl View for Tree {
    type V = Seq<EntryV>;

    open spec fn view(&self) -> Seq<EntryV> {
        self.entries@.map_values(|e: Entry| e@)
    }
}

impl Clone for Tree {
    fn clone(&self) -> (r: Self)
        ensures
            r@ == self@,
    {
        let mut entries: Vec<Entry> = Vec::new();
        let n = self.entries.len();
        let mut i: usize = 0;
        while i < n
            invariant
                i <= n,
                n == self.entries.len(),
                entries@.map_values(|e: Entry| e@) =~= self@.take(i as int),
            decreases n - i,
        {
            let ghost pre = entries@;
            entries.push(self.entries[i].clone());
            proof {
                assert(pre.map_values(|e: Entry| e@).len() == i as int);
                assert(entries@ == pre.push(entries@[i as int]));
                assert(entries@[i as int]@ == self.entries@[i as int]@);
                assert forall|j: int|
                    0 <= j < i as int + 1 implies (#[trigger] entries@[j])@ == self@.take(
                    i as int + 1,
                )[j] by {
                    if j < i as int {
                        assert(entries@[j] == pre[j]);
                        assert(pre.map_values(|e: Entry| e@)[j] == pre[j]@);
                        assert(pre.map_values(|e: Entry| e@)[j] == self@.take(i as int)[j]);
                    }
                }
                assert(entries@.map_values(|e: Entry| e@) =~= self@.take(i as int + 1));
            }
            i = i + 1;
        }
        proof {
            assert(self@.take(n as int) =~= self@);
        }
        Tree { entries }
    }
}

/// Specification view of an object.
pub enum ObjectV {
    Commit(CommitV),
    Tree(Seq<EntryV>),
    Blob(Seq<u8>),
}

/// One immutable node of the object graph.
pub enum Object {
    Commit(Commit),
    Tree(Tree),
    Blob(Vec<u8>),
}

impl View for Object {
    type V = ObjectV;

    open spec fn view(&self) -> ObjectV {
        match self {
            Object::Commit(c) => ObjectV::Commit(c@),
            Object::Tree(t) => ObjectV::Tree(t@),
            Object::Blob(b) => ObjectV::Blob(b@),
        }
    }
}

/// Little-endian rendering of a 64-bit length or timestamp.
pub open spec fn le8(n: u64) -> Seq<u8> {
    seq![
        (n % 256) as u8,
        ((n / 256) % 256) as u8,
        ((n / 65536) % 256) as u8,
        ((n / 16777216) % 256) as u8,
        ((n / 4294967296) % 256) as u8,
        ((n / 1099511627776) % 256) as u8,
        ((n / 281474976710656) % 256) as u8,
        ((n / 72057594037927936) % 256) as u8,
    ]
}

/// Little-endian rendering of one character's code point.
pub open spec fn le4(n: u32) -> Seq<u8> {
    seq![
        (n % 256) as u8,
        ((n / 256) % 256) as u8,
        ((n / 65536) % 256) as u8,
        ((n / 16777216) % 256) as u8,
    ]
}

/// Serialized characters: four bytes each, in order.
pub open spec fn chars_bytes(s: Seq<char>) -> Seq<u8>
    decreases s.len(),
{
    if s.len() == 0 {
        Seq::empty()
    } else {
        chars_bytes(s.drop_last()) + le4(s.last() as u32)
    }
}

/// Serialized optional message: a presence tag, then length and characters.
pub open spec fn opt_msg_bytes(m: Option<Seq<char>>) -> Seq<u8> {
    match m {
        None => seq![0u8],
        Some(s) => seq![1u8] + le8(s.len() as u64) + chars_bytes(s),
    }
}

/// The byte tagging an entry's kind.
pub open spec fn kind_byte(k: EntryKind) -> u8 {
    match k {
        EntryKind::Blob => 0,
        EntryKind::Tree => 1,
    }
}

/// Serialized tree entry: kind tag, name length, name, child id.
pub open spec fn entry_bytes(e: EntryV) -> Seq<u8> {
    seq![kind_byte(e.kind)] + le8(e.name.len() as u64) + chars_bytes(e.name) + e.id
}

/// Serialized entry sequence, in order.
pub open spec fn entries_bytes(es: Seq<EntryV>) -> Seq<u8>
    decreases es.len(),
{
    if es.len() == 0 {
        Seq::empty()
    } else {
        entries_bytes(es.drop_last()) + entry_bytes(es.last())
    }
}

/// Serialized parent id sequence, in order.
pub open spec fn ids_bytes(ids: Seq<Seq<u8>>) -> Seq<u8>
    decreases ids.len(),
{
    if ids.len() == 0 {
        Seq::empty()
    } else {
        ids_bytes(ids.drop_last()) + ids.last()
    }
}

/// The canonical serialization an object is hashed over: a kind tag, then
/// the object's fields with explicit lengths. Identical objects serialize
/// identically, which is what makes content addressing reproducible.
pub open spec fn obj_bytes(o: ObjectV) -> Seq<u8> {
    match o {
        ObjectV::Blob(d) => seq![0u8] + le8(d.len() as u64) + d,
        ObjectV::Tree(es) => seq![1u8] + le8(es.len() as u64) + entries_bytes(es),
        ObjectV::Commit(c) => seq![2u8] + c.tree_id + le8(c.parent_ids.len() as u64) + ids_bytes(
            c.parent_ids,
        ) + opt_msg_bytes(c.message) + le8(c.author.len() as u64) + chars_bytes(c.author) + le8(
            c.time,
        ),
    }
}

/// The content hash an object is stored under.
pub open spec fn object_id_of(o: ObjectV) -> Seq<u8> {
    oid_of(obj_bytes(o))
}

fn push_le8(buf: &mut Vec<u8>, n: u64)
    ensures
        final(buf)@ == old(buf)@ + le8(n),
{
    buf.push((n % 256) as u8);
    buf.push(((n / 256) % 256) as u8);
    buf.push(((n / 65536) % 256) as u8);
    buf.push(((n / 16777216) % 256) as u8);
    buf.push(((n / 4294967296) % 256) as u8);
    buf.push(((n / 1099511627776) % 256) as u8);
    buf.push(((n / 281474976710656) % 256) as u8);
    buf.push(((n / 72057594037927936) % 256) as u8);
    proof {
        assert(buf@ =~= old(buf)@ + le8(n));
    }
}

fn push_le4(buf: &mut Vec<u8>, n: u32)
    ensures
        final(buf)@ == old(buf)@ + le4(n),
{
    buf.push((n % 256) as u8);
    buf.push(((n / 256) % 256) as u8);
    buf.push(((n / 65536) % 256) as u8);
    buf.push(((n / 16777216) % 256) as u8);
    proof {
        assert(buf@ =~= old(buf)@ + le4(n));
    }
}

fn push_bytes(buf: &mut Vec<u8>, v: &Vec<u8>)
    ensures
        final(buf)@ == old(buf)@ + v@,
{
    let n = v.len();
    let mut i: usize = 0;
    while i < n
        invariant
            i <= n,
            n == v.len(),
            buf@ == old(buf)@ + v@.take(i as int),
        decreases n - i,
    {
        buf.push(v[i]);
        proof {
            assert(buf@ =~= old(buf)@ + v@.take(i as int + 1));
        }
        i = i + 1;
    }
    proof {
        assert(v@.take(n as int) =~= v@);
    }
}

fn push_chars(buf: &mut Vec<u8>, s: &str)
    ensures
        final(buf)@ == old(buf)@ + chars_bytes(s@),
{
    let n = s.unicode_len();
    let mut i: usize = 0;
    while i < n
        invariant
            i <= n,
            n == s@.len(),
            buf@ == old(buf)@ + chars_bytes(s@.take(i as int)),
        decreases n - i,
    {
        let c = s.get_char(i);
        push_le4(buf, c as u32);
        proof {
            let t = s@.take(i as int + 1);
            assert(t.drop_last() =~= s@.take(i as int));
            assert(t.last() == s@[i as int]);
            assert(chars_bytes(t) == chars_bytes(s@.take(i as int)) + le4(s@[i as int] as u32));
            assert(buf@ =~= old(buf)@ + chars_bytes(t));
        }
        i = i + 1;
    }
    proof {
        assert(s@.take(n as int) =~= s@);
    }
}

fn push_entry(buf: &mut Vec<u8>, e: &Entry)
    ensures
        final(buf)@ == old(buf)@ + entry_bytes(e@),
{
    match e.kind {
        EntryKind::Blob => buf.push(0u8),
        EntryKind::Tree => buf.push(1u8),
    }
    proof {
        assert(buf@ =~= old(buf)@ + seq![kind_byte(e.kind)]);
    }
    push_le8(buf, e.name.as_str().unicode_len() as u64);
    push_chars(buf, e.name.as_str());
    push_bytes(buf, &e.id.bytes);
    proof {
        assert(buf@ =~= old(buf)@ + entry_bytes(e@));
    }
}

fn push_entries(buf: &mut Vec<u8>, entries: &Vec<Entry>)
    ensures
        final(buf)@ == old(buf)@ + entries_bytes(entries@.map_values(|e: Entry| e@)),
{
    let ghost view = entries@.map_values(|e: Entry| e@);
    let n = entries.len();
    let mut i: usize = 0;
    while i < n
        invariant
            i <= n,
            n == entries.len(),
            view == entries@.map_values(|e: Entry| e@),
            buf@ == old(buf)@ + entries_bytes(view.take(i as int)),
        decreases n - i,
    {
        push_entry(buf, &entries[i]);
        proof {
            let t = view.take(i as int + 1);
            assert(t.drop_last() =~= view.take(i as int));
            assert(t.last() == view[i as int]);
            assert(entries_bytes(t) == entries_bytes(view.take(i as int)) + entry_bytes(
                view[i as int],
            ));
            assert(buf@ =~= old(buf)@ + entries_bytes(t));
        }
        i = i + 1;
    }
    proof {
        assert(view.take(n as int) =~= view);
    }
}

fn push_parent_ids(buf: &mut Vec<u8>, ids: &Vec<ObjectId>)
    ensures
        final(buf)@ == old(buf)@ + ids_bytes(ids@.map_values(|p: ObjectId| p@)),
{
    let ghost view = ids@.map_values(|p: ObjectId| p@);
    let n = ids.len();
    let mut i: usize = 0;
    while i < n
        invariant
            i <= n,
            n == ids.len(),
            view == ids@.map_values(|p: ObjectId| p@),
            buf@ == old(buf)@ + ids_bytes(view.take(i as int)),
        decreases n - i,
    {
        push_bytes(buf, &ids[i].bytes);
        proof {
            let t = view.take(i as int + 1);
            assert(t.drop_last() =~= view.take(i as int));
            assert(t.last() == view[i as int]);
            assert(ids_bytes(t) == ids_bytes(view.take(i as int)) + view[i as int]);
            assert(buf@ =~= old(buf)@ + ids_bytes(t));
        }
        i = i + 1;
    }
    proof {
        assert(view.take(n as int) =~= view);
    }
}

/// Specification view of one stored object: its id and its content.
pub struct SlotV {
    pub id: Seq<u8>,
    pub obj: ObjectV,
}

/// One stored object.
pub struct StoredObject {
    pub id: ObjectId,
    pub obj: Object,
}

impl View for StoredObject {
    type V = SlotV;

    open spec fn view(&self) -> SlotV {
        SlotV { id: self.id@, obj: self.obj@ }
    }
}

/// Specification view of a named ref.
pub struct RefV {
    pub name: Seq<char>,
    pub target: Seq<u8>,
}

/// A named pointer into the object graph (for example the default ref).
pub struct RefSlot {
    pub name: String,
    pub target: ObjectId,
}

impl View for RefSlot {
    type V = RefV;

    open spec fn view(&self) -> RefV {
        RefV { name: self.name@, target: self.target@ }
    }
}

/// Specification view of a whole store.
#[verifier::ext_equal]
pub struct StoreV {
    pub objects: Seq<SlotV>,
    pub refs: Seq<RefV>,
}

/// The object stored under an id, if any.
pub open spec fn object_with_id(objects: Seq<SlotV>, id: Seq<u8>) -> Option<SlotV> {
    first_where(objects, |s: SlotV| s.id == id)
}

/// The ref stored under a name, if any (the first, if shadowed).
pub open spec fn ref_with_name(refs: Seq<RefV>, name: Seq<char>) -> Option<RefV> {
    first_where(refs, |r: RefV| r.name == name)
}

/// Whether some object is stored under the id.
pub open spec fn has_object(objects: Seq<SlotV>, id: Seq<u8>) -> bool {
    exists|k: int| 0 <= k < objects.len() && (#[trigger] objects[k]).id == id
}

/// Whether a tree object is stored under the id.
pub open spec fn has_tree(objects: Seq<SlotV>, id: Seq<u8>) -> bool {
    exists|k: int|
        0 <= k < objects.len() && (#[trigger] objects[k]).id == id && objects[k].obj is Tree
}

/// Well-formedness of one object's own fields: ids it mentions have the
/// hash width, and a tree's entry names are unique within it.
pub open spec fn spec_obj_wf(o: ObjectV) -> bool {
    match o {
        ObjectV::Blob(_) => true,
        ObjectV::Tree(es) => {
            &&& forall|i: int| 0 <= i < es.len() ==> (#[trigger] es[i]).id.len() == 20
            &&& forall|i: int, j: int|
                0 <= i < j < es.len() ==> (#[trigger] es[i]).name != (#[trigger] es[j]).name
        },
        ObjectV::Commit(c) => {
            &&& c.tree_id.len() == 20
            &&& forall|i: int| 0 <= i < c.parent_ids.len() ==> (#[trigger] c.parent_ids[i]).len()
                == 20
        },
    }
}

impl StoreV {
    /// The store's invariant: ids are unique and reproduce from each
    /// object's serialized bytes (content addressing), objects are
    /// internally well-formed, every commit's root tree is present, and
    /// every ref points at a stored object.
    pub open spec fn wf(self) -> bool {
        &&& forall|i: int, j: int|
            0 <= i < j < self.objects.len() ==> (#[trigger] self.objects[i]).id != (
            #[trigger] self.objects[j]).id
        &&& forall|i: int|
            0 <= i < self.objects.len() ==> (#[trigger] self.objects[i]).id == object_id_of(
                self.objects[i].obj,
            ) && self.objects[i].id.len() == 20 && spec_obj_wf(self.objects[i].obj)
        &&& forall|i: int|
            0 <= i < self.objects.len() ==> ((#[trigger] self.objects[i]).obj matches
            ObjectV::Commit(c) ==> has_tree(self.objects, c.tree_id))
        &&& forall|i: int|
            0 <= i < self.refs.len() ==> has_object(self.objects, (#[trigger] self.refs[i]).target)
    }
}

/// Appending an object keeps every stored id reachable.
pub proof fn lemma_has_object_push(objects: Seq<SlotV>, id: Seq<u8>, x: SlotV)
    requires
        has_object(objects, id),
    ensures
        has_object(objects.push(x), id),
{
    let k = choose|k: int| 0 <= k < objects.len() && (#[trigger] objects[k]).id == id;
    assert(objects.push(x)[k] == objects[k]);
}

/// Appending an object keeps every stored tree reachable.
pub proof fn lemma_has_tree_push(objects: Seq<SlotV>, id: Seq<u8>, x: SlotV)
    requires
        has_tree(objects, id),
    ensures
        has_tree(objects.push(x), id),
{
    let k = choose|k: int|
        0 <= k < objects.len() && (#[trigger] objects[k]).id == id && objects[k].obj is Tree;
    assert(objects.push(x)[k] == objects[k]);
}

/// A fault of the content-addressed backend: its hash primitive reported
/// failure. Treated as fatal by callers; nothing was changed.
#[derive(Clone, Copy, PartialEq, Eq, Structural, Debug)]
pub enum StoreFault {
    Backend,
}

/// A content-addressed object store: stored objects and named refs.
/// Objects are immutable; the store only grows.
pub struct Store {
    pub objects: Vec<StoredObject>,
    pub refs: Vec<RefSlot>,
}

impl View for Store {
    type V = StoreV;

    open spec fn view(&self) -> StoreV {
        StoreV {
            objects: self.objects@.map_values(|s: StoredObject| s@),
            refs: self.refs@.map_values(|r: RefSlot| r@),
        }
    }
}

impl Store {
    /// Looks the object stored under `id` up, borrowing it.
    pub fn get_object(&self, id: &ObjectId) -> (r: Option<&Object>)
        ensures
            match r {
                Some(o) => object_with_id(self@.objects, id@) matches Some(s) && s.obj == o@,
                None => object_with_id(self@.objects, id@) is None,
            },
    {
        let n = self.objects.len();
        let mut i: usize = 0;
        while i < n
            invariant
                i <= n,
                n == self.objects.len(),
                forall|j: int| 0 <= j < i ==> (#[trigger] self@.objects[j]).id != id@,
            decreases n - i,
        {
            if self.objects[i].id.eq_id(id) {
                proof {
                    first_where_found_here(self@.objects, id@, i as int);
                }
                return Some(&self.objects[i].obj);
            }
            i = i + 1;
        }
        proof {
            crate::search::lemma_first_where_none(self@.objects, |s: SlotV| s.id == id@);
        }
        None
    }

    /// Writes an object: computes its content id with the backend's hash
    /// and stores it under that id, unless an object with that id is
    /// already present — writing existing content changes nothing, which
    /// is what makes the store idempotent under repeated writes. The write
    /// succeeds exactly when the backend hashes the serialized bytes;
    /// a refusal is `Err`, with the store untouched.
    #[verifier::rlimit(60)]
    pub fn put_object(&mut self, obj: Object) -> (r: Result<ObjectId, StoreFault>)
        requires
            old(self)@.wf(),
            spec_obj_wf(obj@),
            obj@ matches ObjectV::Commit(c) ==> has_tree(old(self)@.objects, c.tree_id),
        ensures
            final(self)@.wf(),
            final(self)@.refs == old(self)@.refs,
            r is Ok <==> hash_ok(obj_bytes(obj@)),
            match r {
                Ok(id) => {
                    &&& id@ == object_id_of(obj@)
                    &&& id@.len() == 20
                    &&& final(self)@.objects == (if has_object(old(self)@.objects, id@) {
                        old(self)@.objects
                    } else {
                        old(self)@.objects.push(SlotV { id: id@, obj: obj@ })
                    })
                    &&& has_object(final(self)@.objects, id@)
                },
                Err(_) => final(self)@ == old(self)@,
            },
    {
        let bytes = serialize_object(&obj);
        match hash_object_bytes(&bytes) {
            None => {
                proof {
                    assert(self@ =~= old(self)@);
                }
                Err(StoreFault::Backend)
            },
            Some(idb) => {
                let id = ObjectId { bytes: idb };
                let ghost oldv = self@;
                let present = self.get_object(&id).is_some();
                proof {
                    crate::search::lemma_first_where_sound(oldv.objects, |s: SlotV| s.id == id@);
                    if present {
                        let s = object_with_id(oldv.objects, id@).unwrap();
                        let k = choose|k: int|
                            0 <= k < oldv.objects.len() && oldv.objects[k] == s;
                        assert(oldv.objects[k].id == id@);
                        assert(has_object(oldv.objects, id@));
                    } else {
                        if has_object(oldv.objects, id@) {
                            let k = choose|k: int|
                                0 <= k < oldv.objects.len() && (#[trigger] oldv.objects[k]).id
                                    == id@;
                            crate::search::lemma_first_where_complete(
                                oldv.objects,
                                |s: SlotV| s.id == id@,
                                k,
                            );
                            assert(false);
                        }
                    }
                }
                if present {
                    return Ok(id);
                }
                let ghost slot = SlotV { id: id@, obj: obj@ };
                let ghost n = oldv.objects.len();
                let stored = StoredObject { id: ObjectId { bytes: id.bytes.clone() }, obj };
                proof {
                    assert(stored@ == slot);
                }
                self.objects.push(stored);
                proof {
                    assert(self@.objects =~= oldv.objects.push(slot));
                    assert(self@.refs =~= oldv.refs);
                    let newv = self@;
                    assert(newv.objects[n as int] == slot);
                    assert(has_object(newv.objects, id@));
                    assert forall|a: int|
                        0 <= a < newv.objects.len() implies ((#[trigger] newv.objects[a]).obj
                        matches ObjectV::Commit(c) ==> has_tree(newv.objects, c.tree_id)) by {
                        if a < n as int {
                            assert(newv.objects[a] == oldv.objects[a]);
                        }
                        match newv.objects[a].obj {
                            ObjectV::Commit(c) => {
                                lemma_has_tree_push(oldv.objects, c.tree_id, slot);
                            },
                            _ => {},
                        }
                    }
                    assert forall|a: int|
                        0 <= a < newv.refs.len() implies has_object(
                        newv.objects,
                        (#[trigger] newv.refs[a]).target,
                    ) by {
                        lemma_has_object_push(oldv.objects, newv.refs[a].target, slot);
                    }
                }
                Ok(id)
            },
        }
    }

    /// Writes a byte sequence as a Blob, returning its content id. Writing
    /// identical bytes always yields the identical id; the write succeeds
    /// exactly when the backend hashes the blob's serialized bytes.
    pub fn write_blob(&mut self, data: Vec<u8>) -> (r: Result<ObjectId, StoreFault>)
        requires
            old(self)@.wf(),
        ensures
            final(self)@.wf(),
            final(self)@.refs == old(self)@.refs,
            r is Ok <==> hash_ok(obj_bytes(ObjectV::Blob(data@))),
            match r {
                Ok(id) => {
                    &&& id@ == object_id_of(ObjectV::Blob(data@))
                    &&& final(self)@.objects == (if has_object(old(self)@.objects, id@) {
                        old(self)@.objects
                    } else {
                        old(self)@.objects.push(
                            SlotV { id: id@, obj: ObjectV::Blob(data@) },
                        )
                    })
                    &&& has_object(final(self)@.objects, id@)
                },
                Err(_) => final(self)@ == old(self)@,
            },
    {
        self.put_object(Object::Blob(data))
    }

    /// Points the ref `name` at `target`: the new row is placed first, so
    /// it wins any lookup of that name from now on.
    pub fn set_ref(&mut self, name: String, target: ObjectId)
        requires
            old(self)@.wf(),
            has_object(old(self)@.objects, target@),
        ensures
            final(self)@.wf(),
            final(self)@.objects == old(self)@.objects,
            final(self)@.refs == seq![RefV { name: name@, target: target@ }] + old(self)@.refs,
            ref_with_name(final(self)@.refs, name@) == Some(
                RefV { name: name@, target: target@ },
            ),
    {
        let ghost oldv = self@;
        let ghost rv = RefV { name: name@, target: target@ };
        self.refs.insert(0, RefSlot { name, target });
        proof {
            assert forall|j: int| 0 <= j < self.refs@.len() implies (#[trigger] self.refs@[j])@
                == (seq![rv] + oldv.refs)[j] by {
                if j > 0 {
                    assert(self.refs@[j] == old(self).refs@[j - 1]);
                    assert(oldv.refs[j - 1] == old(self).refs@[j - 1]@);
                }
            }
            assert(self@.refs =~= seq![rv] + oldv.refs);
            let newv = self@;
            assert(newv.objects =~= oldv.objects);
            assert(newv.refs[0] == rv);
            crate::search::lemma_first_where_found(newv.refs, |r: RefV| r.name == name@, 0);
            assert forall|a: int|
                0 <= a < newv.refs.len() implies has_object(
                newv.objects,
                (#[trigger] newv.refs[a]).target,
            ) by {
                if a > 0 {
                    assert(newv.refs[a] == oldv.refs[a - 1]);
                }
            }
        }
    }
}

/// The root commit a bootstrap writes: the empty tree, no parents, the
/// fixed message, the owner as author.
pub open spec fn bootstrap_commit(author: Seq<char>, time: u64) -> CommitV {
    CommitV {
        tree_id: object_id_of(ObjectV::Tree(Seq::empty())),
        parent_ids: Seq::empty(),
        message: Some("Initial commit"@),
        author,
        time,
    }
}

/// The initial contents of a freshly bootstrapped store: one empty tree,
/// one root commit carrying it (no parents, the fixed message, the owner
/// as author), and the default ref pointing at that commit.
pub open spec fn spec_bootstrap(author: Seq<char>, time: u64) -> StoreV {
    let tid = object_id_of(ObjectV::Tree(Seq::empty()));
    let cv = bootstrap_commit(author, time);
    let cid = object_id_of(ObjectV::Commit(cv));
    let tslot = SlotV { id: tid, obj: ObjectV::Tree(Seq::empty()) };
    let cslot = SlotV { id: cid, obj: ObjectV::Commit(cv) };
    StoreV {
        objects: if cid == tid {
            seq![tslot]
        } else {
            seq![tslot, cslot]
        },
        refs: seq![RefV { name: "HEAD"@, target: cid }],
    }
}

impl Store {
    /// Initializes a new store with its first commit: writes one empty
    /// tree, commits it with no parents and the fixed message, recording
    /// `author` (the basket owner's username) as author and committer at
    /// `time`, and points the default ref `HEAD` at that commit. It
    /// succeeds exactly when the backend hashes both objects' serialized
    /// bytes. All or nothing: a backend refusal yields `Err` and no store,
    /// never a ref pointing at a missing commit.
    #[verifier::rlimit(50)]
    pub fn bootstrap(author: &str, time: u64) -> (r: Result<Store, StoreFault>)
        ensures
            r is Ok <==> hash_ok(obj_bytes(ObjectV::Tree(Seq::<EntryV>::empty()))) && hash_ok(
                obj_bytes(ObjectV::Commit(bootstrap_commit(author@, time))),
            ),
            r matches Ok(s) ==> s@ == spec_bootstrap(author@, time) && s@.wf(),
    {
        let mut store = Store { objects: Vec::new(), refs: Vec::new() };
        proof {
            assert(store@.objects =~= Seq::<SlotV>::empty());
            assert(store@.refs =~= Seq::<RefV>::empty());
        }
        let tree = Object::Tree(Tree { entries: Vec::new() });
        proof {
            assert(tree@ matches ObjectV::Tree(es) && es =~= Seq::<EntryV>::empty());
            assert(tree@ == ObjectV::Tree(Seq::<EntryV>::empty()));
        }
        let tid = match store.put_object(tree) {
            Ok(id) => id,
            Err(f) => {
                return Err(f);
            },
        };
        let ghost tidv = tid@;
        let ghost tslot = SlotV { id: tidv, obj: ObjectV::Tree(Seq::<EntryV>::empty()) };
        proof {
            assert(store@.objects =~= seq![tslot]);
            assert(store@.objects[0] == tslot);
            assert(has_tree(store@.objects, tidv));
        }
        let commit = Commit {
            tree_id: tid,
            parent_ids: Vec::new(),
            message: Some(String::from_str("Initial commit")),
            author: author.to_owned(),
            time,
        };
        proof {
            assert(commit@.parent_ids =~= Seq::<Seq<u8>>::empty());
        }
        let ghost cv = commit@;
        let cid = match store.put_object(Object::Commit(commit)) {
            Ok(id) => id,
            Err(f) => {
                return Err(f);
            },
        };
        let ghost cidv = cid@;
        store.set_ref(String::from_str("HEAD"), cid);
        proof {
            let sb = spec_bootstrap(author@, time);
            let cslot = SlotV { id: cidv, obj: ObjectV::Commit(cv) };
            assert(cv == CommitV {
                tree_id: tidv,
                parent_ids: Seq::<Seq<u8>>::empty(),
                message: Some("Initial commit"@),
                author: author@,
                time,
            });
            if cidv == tidv {
                assert(store@.objects =~= seq![tslot]);
                assert(store@.objects =~= sb.objects);
            } else {
                assert(store@.objects =~= seq![tslot].push(cslot));
                assert(store@.objects =~= sb.objects);
            }
            assert(store@.refs =~= sb.refs);
            assert(store@ =~= sb);
        }
        Ok(store)
    }
}

/// Content-addressing idempotence: the id under which bytes are stored is
/// a function of the bytes alone, so writing identical bytes as a blob a
/// second time yields the identical id — and, the id being present after
/// the first write, the second write leaves the stored objects unchanged.
pub proof fn lemma_blob_write_twice(s: StoreV, data: Seq<u8>)
    ensures
        ({
            let id = object_id_of(ObjectV::Blob(data));
            let once = if has_object(s.objects, id) {
                s.objects
            } else {
                s.objects.push(SlotV { id: id, obj: ObjectV::Blob(data) })
            };
            &&& has_object(once, id)
            &&& (if has_object(once, id) {
                once
            } else {
                once.push(SlotV { id: id, obj: ObjectV::Blob(data) })
            }) == once
        }),
{
    let id = object_id_of(ObjectV::Blob(data));
    if !has_object(s.objects, id) {
        let once = s.objects.push(SlotV { id: id, obj: ObjectV::Blob(data) });
        assert(once[s.objects.len() as int].id == id);
        assert(has_object(once, id));
    }
}

/// Lookup helper: the slot at a matching index is the first match when no
/// earlier index matches.
proof fn first_where_found_here(objects: Seq<SlotV>, id: Seq<u8>, i: int)
    requires
        0 <= i < objects.len(),
        forall|j: int| 0 <= j < i ==> (#[trigger] objects[j]).id != id,
        objects[i].id == id,
    ensures
        object_with_id(objects, id) == Some(objects[i]),
{
    crate::search::lemma_first_where_found(objects, |s: SlotV| s.id == id, i);
}

/// Serializes an object into the canonical bytes its id is computed over.
pub fn serialize_object(o: &Object) -> (r: Vec<u8>)
    ensures
        r@ == obj_bytes(o@),
{
    let mut buf: Vec<u8> = Vec::new();
    match o {
        Object::Blob(d) => {
            buf.push(0u8);
            push_le8(&mut buf, d.len() as u64);
            push_bytes(&mut buf, d);
            proof {
                assert(buf@ =~= obj_bytes(o@));
            }
        },
        Object::Tree(t) => {
            buf.push(1u8);
            push_le8(&mut buf, t.entries.len() as u64);
            push_entries(&mut buf, &t.entries);
            proof {
                assert(buf@ =~= obj_bytes(o@));
            }
        },
        Object::Commit(c) => {
            buf.push(2u8);
            push_bytes(&mut buf, &c.tree_id.bytes);
            push_le8(&mut buf, c.parent_ids.len() as u64);
            push_parent_ids(&mut buf, &c.parent_ids);
            match &c.message {
                None => {
                    buf.push(0u8);
                },
                Some(m) => {
                    buf.push(1u8);
                    push_le8(&mut buf, m.as_str().unicode_len() as u64);
                    push_chars(&mut buf, m.as_str());
                },
            }
            push_le8(&mut buf, c.author.as_str().unicode_len() as u64);
            push_chars(&mut buf, c.author.as_str());
            push_le8(&mut buf, c.time);
            proof {
                assert(buf@ =~= obj_bytes(o@));
            }
        },
    }
    buf
}

} // verus!
