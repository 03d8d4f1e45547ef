//! The object-graph resolver: named refs down to commits, commits to their
//! root trees, and slash-separated paths within a tree down to nested
//! entries — read access over the immutable, hash-addressed graph.

use vstd::prelude::*;
use crate::collaborators::{hex_decode, hex_decoded, is_hex_seq};
use crate::search::{
    first_where, lemma_first_where_complete, lemma_first_where_found, lemma_first_where_none,
    lemma_first_where_sound,
};
use crate::store::{
    has_object, has_tree, object_id_of, object_with_id, ref_with_name, spec_bootstrap, Commit,
    CommitV, Entry, EntryKind, EntryV, Object, ObjectId, ObjectV, RefV, SlotV, Store, StoreV,
    Tree,
};

verus! {

/// Why a ref failed to resolve.
#[derive(Clone, Copy, PartialEq, Eq, Structural, Debug)]
pub enum RefError {
    /// No ref of that name points anywhere.
    UnknownRef,
    /// The name resolves, but not to a commit.
    NotACommit,
}

/// Why a path failed to resolve.
#[derive(Clone, Copy, PartialEq, Eq, Structural, Debug)]
pub enum PathError {
    /// A segment names no entry, or an intermediate segment is not a tree.
    PathNotFound,
}

/// Why an object lookup failed.
#[derive(Clone, Copy, PartialEq, Eq, Structural, Debug)]
pub enum LookupError {
    /// The id string is not hexadecimal of the fixed width.
    MalformedId,
    /// No object is stored under the id.
    ObjectNotFound,
    /// The id resolves, but not to a blob.
    NotABlob,
}

/// What a ref name resolves to: the commit its target id names.
pub open spec fn spec_resolve_ref(s: StoreV, name: Seq<char>) -> Result<CommitV, RefError> {
    match ref_with_name(s.refs, name) {
        None => Err(RefError::UnknownRef),
        Some(rv) => match object_with_id(s.objects, rv.target) {
            Some(slot) => match slot.obj {
                ObjectV::Commit(c) => Ok(c),
                _ => Err(RefError::NotACommit),
            },
            None => Err(RefError::UnknownRef),
        },
    }
}

/// Under the store invariant, a stored tree id looks up to a tree object.
pub proof fn lemma_tree_lookup(s: StoreV, id: Seq<u8>)
    requires
        s.wf(),
        has_tree(s.objects, id),
    ensures
        object_with_id(s.objects, id) matches Some(slot) && slot.obj is Tree,
{
    let k = choose|k: int|
        0 <= k < s.objects.len() && (#[trigger] s.objects[k]).id == id && s.objects[k].obj
            is Tree;
    lemma_first_where_complete(s.objects, |x: SlotV| x.id == id, k);
    lemma_first_where_sound(s.objects, |x: SlotV| x.id == id);
    let slot = object_with_id(s.objects, id).unwrap();
    let m = choose|m: int| 0 <= m < s.objects.len() && s.objects[m] == slot;
    if m != k {
        assert(s.objects[m].id == s.objects[k].id);
        assert(false);
    }
}

/// Resolves a ref name to its target id and the commit stored there.
/// `UnknownRef` when no ref of that name exists; `NotACommit` when the
/// target object is not a commit.
pub fn resolve_ref_id(store: &Store, name: &str) -> (r: Result<(ObjectId, Commit), RefError>)
    requires
        store@.wf(),
    ensures
        match r {
            Ok(p) => spec_resolve_ref(store@, name@) == Ok::<CommitV, RefError>(p.1@) && has_tree(
                store@.objects,
                p.1@.tree_id,
            ) && (ref_with_name(store@.refs, name@) matches Some(rv) && rv.target == p.0@),
            Err(e) => spec_resolve_ref(store@, name@) == Err::<CommitV, RefError>(e),
        },
{
    let n = store.refs.len();
    let mut i: usize = 0;
    while i < n
        invariant
            i <= n,
            n == store.refs.len(),
            store@.wf(),
            forall|j: int| 0 <= j < i ==> (#[trigger] store@.refs[j]).name != name@,
        decreases n - i,
    {
        if crate::collaborators::str_eq(store.refs[i].name.as_str(), name) {
            proof {
                lemma_first_where_found(store@.refs, |x: RefV| x.name == name@, i as int);
                assert(has_object(store@.objects, store@.refs[i as int].target));
            }
            let target = &store.refs[i].target;
            match store.get_object(target) {
                Some(o) => {
                    match o {
                        Object::Commit(c) => {
                            let out = c.clone();
                            proof {
                                let slot = object_with_id(store@.objects, target@).unwrap();
                                lemma_first_where_sound(
                                    store@.objects,
                                    |x: SlotV| x.id == target@,
                                );
                                let m = choose|m: int|
                                    0 <= m < store@.objects.len() && store@.objects[m] == slot;
                                assert(has_tree(store@.objects, out@.tree_id));
                            }
                            return Ok((target.clone(), out));
                        },
                        _ => {
                            return Err(RefError::NotACommit);
                        },
                    }
                },
                None => {
                    proof {
                        let k = choose|k: int|
                            0 <= k < store@.objects.len() && (#[trigger] store@.objects[k]).id
                                == target@;
                        lemma_first_where_complete(
                            store@.objects,
                            |x: SlotV| x.id == target@,
                            k,
                        );
                        assert(false);
                    }
                    return Err(RefError::UnknownRef);
                },
            }
        }
        i = i + 1;
    }
    proof {
        lemma_first_where_none(store@.refs, |x: RefV| x.name == name@);
    }
    Err(RefError::UnknownRef)
}

/// Resolves a ref name to the commit it points at. `UnknownRef` when no
/// ref of that name exists; `NotACommit` when the name resolves to a
/// non-commit object.
pub fn resolve_ref(store: &Store, name: &str) -> (r: Result<Commit, RefError>)
    requires
        store@.wf(),
    ensures
        match r {
            Ok(c) => spec_resolve_ref(store@, name@) == Ok::<CommitV, RefError>(c@) && has_tree(
                store@.objects,
                c@.tree_id,
            ),
            Err(e) => spec_resolve_ref(store@, name@) == Err::<CommitV, RefError>(e),
        },
{
    match resolve_ref_id(store, name) {
        Ok(p) => Ok(p.1),
        Err(e) => Err(e),
    }
}

/// The root tree of a commit: always present for a commit taken from a
/// well-formed store.
pub fn tree_of(store: &Store, commit: &Commit) -> (r: Tree)
    requires
        store@.wf(),
        has_tree(store@.objects, commit@.tree_id),
    ensures
        object_with_id(store@.objects, commit@.tree_id) matches Some(slot) && slot.obj
            == ObjectV::Tree(r@),
{
    proof {
        lemma_tree_lookup(store@, commit@.tree_id);
    }
    match store.get_object(&commit.tree_id) {
        Some(Object::Tree(t)) => t.clone(),
        _ => {
            proof {
                assert(false);
            }
            Tree { entries: Vec::new() }
        },
    }
}

/// The direct children of a tree, in storage order.
pub fn list_entries(tree: &Tree) -> (r: Vec<Entry>)
    ensures
        r@.map_values(|e: Entry| e@) == tree@,
{
    let copy = tree.clone();
    copy.entries
}

/// The index of the first '/' in `p`, or its length if none occurs.
pub open spec fn first_slash(p: Seq<char>) -> int
    decreases p.len(),
{
    if p.len() == 0 {
        0
    } else if p[0] == '/' {
        0
    } else {
        1 + first_slash(p.skip(1))
    }
}

/// While no '/' occurs among the first `i` characters, the first slash of
/// `p` lies `i` beyond the first slash of the remainder.
pub proof fn lemma_first_slash_skip(p: Seq<char>, i: int)
    requires
        0 <= i <= p.len(),
        forall|j: int| 0 <= j < i ==> p[j] != '/',
    ensures
        first_slash(p) == i + first_slash(p.skip(i)),
    decreases i,
{
    if i == 0 {
        assert(p.skip(0) =~= p);
    } else {
        lemma_first_slash_skip(p, i - 1);
        let t = p.skip(i - 1);
        assert(t[0] == p[i - 1]);
        assert(t.skip(1) =~= p.skip(i));
        assert(first_slash(t) == 1 + first_slash(t.skip(1)));
    }
}

/// The first slash lies in range, marks a '/', and nothing before it is one.
pub proof fn lemma_first_slash_bounds(p: Seq<char>)
    ensures
        0 <= first_slash(p) <= p.len(),
        first_slash(p) < p.len() ==> p[first_slash(p)] == '/',
        forall|j: int| 0 <= j < first_slash(p) ==> p[j] != '/',
    decreases p.len(),
{
    if p.len() > 0 && p[0] != '/' {
        lemma_first_slash_bounds(p.skip(1));
        let f = first_slash(p);
        assert(f == 1 + first_slash(p.skip(1)));
        assert forall|j: int| 0 <= j < f implies p[j] != '/' by {
            if j > 0 {
                assert(p.skip(1)[j - 1] == p[j]);
            }
        }
        if f < p.len() {
            assert(p.skip(1)[f - 1] == p[f]);
        }
    }
}

/// The non-empty segments of a slash-separated path, in order. Empty
/// segments (leading, trailing or doubled separators) denote nothing and
/// are dropped.
#[verifier::opaque]
pub open spec fn split_path(p: Seq<char>) -> Seq<Seq<char>>
    decreases p.len(),
    via split_path_decreases
{
    if p.len() == 0 {
        Seq::empty()
    } else {
        let f = first_slash(p);
        let seg = p.take(f);
        if f == p.len() {
            if seg.len() == 0 {
                Seq::empty()
            } else {
                seq![seg]
            }
        } else {
            if seg.len() == 0 {
                split_path(p.skip(f + 1))
            } else {
                seq![seg] + split_path(p.skip(f + 1))
            }
        }
    }
}

#[via_fn]
proof fn split_path_decreases(p: Seq<char>) {
    lemma_first_slash_bounds(p);
}

/// The entry stored under a name within one tree, if any.
pub open spec fn entry_with_name(es: Seq<EntryV>, name: Seq<char>) -> Option<EntryV> {
    first_where(es, |e: EntryV| e.name == name)
}

/// The walk down the graph: each segment must name an entry of the current
/// tree; intermediate segments must name trees (one cannot descend into a
/// blob); the terminal entry may be a tree or a blob. No segments at all
/// denote the starting tree itself.
pub open spec fn walk(s: StoreV, tree_id: Seq<u8>, segs: Seq<Seq<char>>) -> Result<
    EntryV,
    PathError,
>
    decreases segs.len(),
{
    if segs.len() == 0 {
        Ok(EntryV { name: Seq::empty(), id: tree_id, kind: EntryKind::Tree })
    } else {
        match object_with_id(s.objects, tree_id) {
            Some(slot) => match slot.obj {
                ObjectV::Tree(es) => match entry_with_name(es, segs[0]) {
                    Some(e) => if segs.len() == 1 {
                        Ok(e)
                    } else if e.kind == EntryKind::Tree {
                        walk(s, e.id, segs.skip(1))
                    } else {
                        Err(PathError::PathNotFound)
                    },
                    None => Err(PathError::PathNotFound),
                },
                _ => Err(PathError::PathNotFound),
            },
            None => Err(PathError::PathNotFound),
        }
    }
}

/// What a slash-separated path within a tree resolves to.
pub open spec fn spec_lookup_path(s: StoreV, tree_id: Seq<u8>, path: Seq<char>) -> Result<
    EntryV,
    PathError,
> {
    walk(s, tree_id, split_path(path))
}

/// An empty path resolves to the starting tree itself, as a tree entry.
pub proof fn lemma_lookup_path_empty(s: StoreV, tree_id: Seq<u8>)
    ensures
        spec_lookup_path(s, tree_id, Seq::empty()) == Ok::<EntryV, PathError>(
            EntryV { name: Seq::empty(), id: tree_id, kind: EntryKind::Tree },
        ),
{
    lemma_split_path_empty();
}

/// Descending through an entry that is a blob fails with `PathNotFound`
/// rather than anything worse: a file is no directory.
pub proof fn lemma_blob_is_no_directory(s: StoreV, tree_id: Seq<u8>, path: Seq<char>)
    requires
        split_path(path).len() > 1,
        object_with_id(s.objects, tree_id) matches Some(slot) && (slot.obj matches ObjectV::Tree(
            es,
        ) && (entry_with_name(es, split_path(path)[0]) matches Some(e) && e.kind
            == EntryKind::Blob)),
    ensures
        spec_lookup_path(s, tree_id, path) == Err::<EntryV, PathError>(PathError::PathNotFound),
{
}

/// Finds the entry of the given name in a tree.
pub fn find_entry(tree: &Tree, name: &str) -> (r: Option<Entry>)
    ensures
        match r {
            Some(e) => entry_with_name(tree@, name@) == Some(e@),
            None => entry_with_name(tree@, name@) is None,
        },
{
    let n = tree.entries.len();
    let mut i: usize = 0;
    while i < n
        invariant
            i <= n,
            n == tree.entries.len(),
            forall|j: int| 0 <= j < i ==> (#[trigger] tree@[j]).name != name@,
        decreases n - i,
    {
        if crate::collaborators::str_eq(tree.entries[i].name.as_str(), name) {
            proof {
                lemma_first_where_found(tree@, |e: EntryV| e.name == name@, i as int);
            }
            return Some(tree.entries[i].clone());
        }
        i = i + 1;
    }
    proof {
        lemma_first_where_none(tree@, |e: EntryV| e.name == name@);
    }
    None
}

/// Scans for the next '/' at or after `from`, returning its position, or
/// the length if none occurs.
pub fn find_slash(path: &str, from: usize) -> (r: usize)
    requires
        from <= path@.len(),
    ensures
        from <= r <= path@.len(),
        r as int - from as int == first_slash(path@.skip(from as int)),
        r < path@.len() ==> path@[r as int] == '/',
{
    let ghost rest = path@.skip(from as int);
    let n = path.unicode_len();
    let mut j: usize = from;
    while j < n
        invariant
            from <= j <= n,
            n == path@.len(),
            rest == path@.skip(from as int),
            forall|k: int| from <= k < j ==> path@[k] != '/',
        decreases n - j,
    {
        if path.get_char(j) == '/' {
            proof {
                assert forall|k: int| 0 <= k < j - from implies rest[k] != '/' by {
                    assert(rest[k] == path@[from + k]);
                }
                lemma_first_slash_skip(rest, j as int - from as int);
                assert(rest.skip(j as int - from as int)[0] == path@[j as int]);
                assert(first_slash(rest.skip(j as int - from as int)) == 0);
            }
            return j;
        }
        j = j + 1;
    }
    proof {
        assert forall|k: int| 0 <= k < rest.len() implies rest[k] != '/' by {
            assert(rest[k] == path@[from + k]);
        }
        lemma_first_slash_skip(rest, rest.len() as int);
        assert(rest.skip(rest.len() as int) =~= Seq::<char>::empty());
        assert(first_slash(rest) == rest.len());
    }
    n
}

/// An empty path has no segments.
pub proof fn lemma_split_path_empty()
    ensures
        split_path(Seq::<char>::empty()) == Seq::<Seq<char>>::empty(),
{
    reveal(split_path);
}

/// One unfolding step of `split_path`: the part before the first slash
/// (if non-empty) followed by the split of what comes after it.
pub proof fn lemma_split_path_step(q: Seq<char>)
    requires
        q.len() > 0,
    ensures
        ({
            let f = first_slash(q);
            let seg: Seq<Seq<char>> = if q.take(f).len() == 0 {
                Seq::empty()
            } else {
                seq![q.take(f)]
            };
            let rest: Seq<Seq<char>> = if f == q.len() {
                Seq::empty()
            } else {
                split_path(q.skip(f + 1))
            };
            split_path(q) == seg + rest
        }),
{
    reveal(split_path);
    lemma_first_slash_bounds(q);
    let f = first_slash(q);
    let seg: Seq<Seq<char>> = if q.take(f).len() == 0 {
        Seq::empty()
    } else {
        seq![q.take(f)]
    };
    let rest: Seq<Seq<char>> = if f == q.len() {
        Seq::empty()
    } else {
        split_path(q.skip(f + 1))
    };
    if f == q.len() {
        if q.take(f).len() == 0 {
            assert(split_path(q) =~= seg + rest);
        } else {
            assert(split_path(q) =~= seg + rest);
        }
    } else {
        if q.take(f).len() == 0 {
            assert(split_path(q) =~= seg + rest);
        } else {
            assert(split_path(q) =~= seg + rest);
        }
    }
}

/// Invariant step for the splitter: consuming one segment (and its
/// separator) keeps "segments gathered so far plus the split of the rest"
/// equal to the split of the whole path.
pub proof fn lemma_segments_step(
    p: Seq<char>,
    pos: int,
    newpos: int,
    segsv_pre: Seq<Seq<char>>,
    segsv_now: Seq<Seq<char>>,
)
    requires
        0 <= pos < p.len(),
        ({
            let rest = p.skip(pos);
            let fs = first_slash(rest);
            &&& newpos == (if pos + fs < p.len() {
                pos + fs + 1
            } else {
                p.len() as int
            })
            &&& segsv_now == (if fs == 0 {
                segsv_pre
            } else {
                segsv_pre.push(rest.take(fs))
            })
            &&& segsv_pre + split_path(rest) == split_path(p)
        }),
    ensures
        pos < newpos <= p.len(),
        segsv_now + split_path(p.skip(newpos)) == split_path(p),
{
    let rest = p.skip(pos);
    let fs = first_slash(rest);
    let segv = rest.take(fs);
    lemma_first_slash_bounds(rest);
    lemma_split_path_step(rest);
    if pos + fs < p.len() {
        assert(fs < rest.len());
        assert forall|k: int| 0 <= k < rest.len() - fs - 1 implies rest.skip(fs + 1)[k] == p.skip(
            newpos,
        )[k] by {
            assert(rest.skip(fs + 1)[k] == p[pos + fs + 1 + k]);
            assert(p.skip(newpos)[k] == p[newpos + k]);
        }
        assert(rest.skip(fs + 1) =~= p.skip(newpos));
        if fs == 0 {
            assert(split_path(rest) =~= Seq::<Seq<char>>::empty() + split_path(rest.skip(1)));
            assert(split_path(rest) =~= split_path(p.skip(newpos)));
            assert(segsv_now + split_path(p.skip(newpos)) =~= segsv_pre + split_path(rest));
        } else {
            assert(split_path(rest) =~= seq![segv] + split_path(p.skip(newpos)));
            assert(segsv_pre.push(segv) =~= segsv_pre + seq![segv]);
            assert(segsv_now + split_path(p.skip(newpos)) =~= segsv_pre + (seq![segv]
                + split_path(p.skip(newpos))));
        }
    } else {
        assert(fs == rest.len());
        assert(p.skip(newpos) =~= Seq::<char>::empty());
        lemma_split_path_empty();
        assert(fs > 0);
        assert(split_path(rest) =~= seq![segv] + Seq::<Seq<char>>::empty());
        assert(split_path(rest) =~= seq![segv]);
        assert(segsv_now =~= segsv_pre.push(segv));
        assert(segsv_now + split_path(p.skip(newpos)) =~= segsv_pre + seq![segv]);
        assert(segsv_pre + seq![segv] =~= segsv_pre + split_path(rest));
    }
}

/// Splits a path on '/' into its non-empty segments, in order.
pub fn split_segments(path: &str) -> (r: Vec<String>)
    ensures
        r@.map_values(|s: String| s@) == split_path(path@),
{
    let mut segs: Vec<String> = Vec::new();
    let n = path.unicode_len();
    let mut pos: usize = 0;
    proof {
        assert(segs@.map_values(|s: String| s@) =~= Seq::<Seq<char>>::empty());
        assert(path@.skip(0) =~= path@);
        assert(Seq::<Seq<char>>::empty() + split_path(path@.skip(0)) =~= split_path(path@));
    }
    while pos < n
        invariant
            pos <= n,
            n == path@.len(),
            segs@.map_values(|s: String| s@) + split_path(path@.skip(pos as int)) == split_path(
                path@,
            ),
        decreases n - pos,
    {
        let ghost rest = path@.skip(pos as int);
        let ghost segsv_pre = segs@.map_values(|s: String| s@);
        let ghost oldpos = pos as int;
        let j = find_slash(path, pos);
        let ghost fs = j as int - pos as int;
        let ghost segv = rest.take(fs);
        proof {
            assert(rest.len() == n - pos);
        }
        if j > pos {
            let seg = path.substring_char(pos, j).to_owned();
            proof {
                assert forall|k: int| 0 <= k < fs implies seg@[k] == segv[k] by {
                    assert(segv[k] == rest[k]);
                    assert(rest[k] == path@[pos + k]);
                }
                assert(seg@ =~= segv);
            }
            let ghost pre_raw = segs@;
            segs.push(seg);
            proof {
                assert forall|k: int|
                    0 <= k < segs@.len() implies (#[trigger] segs@[k])@ == segsv_pre.push(
                    segv,
                )[k] by {
                    if k < pre_raw.len() {
                        assert(segs@[k] == pre_raw[k]);
                        assert(segsv_pre[k] == pre_raw[k]@);
                    }
                }
                assert(segs@.map_values(|s: String| s@) =~= segsv_pre.push(segv));
            }
        }
        if j < n {
            pos = j + 1;
        } else {
            pos = n;
        }
        proof {
            lemma_segments_step(
                path@,
                oldpos,
                pos as int,
                segsv_pre,
                segs@.map_values(|s: String| s@),
            );
        }
    }
    proof {
        assert(path@.skip(pos as int) =~= Seq::<char>::empty());
        lemma_split_path_empty();
        assert(segs@.map_values(|s: String| s@) + split_path(path@.skip(pos as int))
            =~= segs@.map_values(|s: String| s@));
    }
    segs
}

/// Resolves a slash-separated path within the tree named by `tree_id`.
/// The empty path (or one of separators only) returns the tree itself as
/// an unnamed tree entry. Fails with `PathNotFound` as soon as a segment
/// is missing or an intermediate segment is not a tree.
pub fn lookup_path(store: &Store, tree_id: &ObjectId, path: &str) -> (r: Result<Entry, PathError>)
    requires
        store@.wf(),
    ensures
        match r {
            Ok(e) => spec_lookup_path(store@, tree_id@, path@) == Ok::<EntryV, PathError>(e@),
            Err(e) => spec_lookup_path(store@, tree_id@, path@) == Err::<EntryV, PathError>(e),
        },
{
    let segs = split_segments(path);
    let ghost segsv = segs@.map_values(|s: String| s@);
    let m = segs.len();
    if m == 0 {
        proof {
            assert(segsv.len() == 0);
        }
        return Ok(Entry { name: String::new(), id: tree_id.clone(), kind: EntryKind::Tree });
    }
    let mut cur: ObjectId = tree_id.clone();
    let mut k: usize = 0;
    proof {
        assert(segsv.skip(0) =~= segsv);
    }
    loop
        invariant
            0 <= k < m,
            m == segs.len(),
            segsv == segs@.map_values(|s: String| s@),
            segsv == split_path(path@),
            store@.wf(),
            walk(store@, tree_id@, segsv) == walk(store@, cur@, segsv.skip(k as int)),
        decreases m - k,
    {
        let ghost tail = segsv.skip(k as int);
        proof {
            assert(tail.len() == m - k);
            assert(tail[0] == segsv[k as int]);
            assert(segsv[k as int] == segs@[k as int]@);
        }
        match store.get_object(&cur) {
            None => {
                proof {
                    assert(walk(store@, cur@, tail) == Err::<EntryV, PathError>(
                        PathError::PathNotFound,
                    ));
                }
                return Err(PathError::PathNotFound);
            },
            Some(o) => {
                match o {
                    Object::Tree(t) => {
                        match find_entry(t, segs[k].as_str()) {
                            None => {
                                proof {
                                    assert(walk(store@, cur@, tail) == Err::<EntryV, PathError>(
                                        PathError::PathNotFound,
                                    ));
                                }
                                return Err(PathError::PathNotFound);
                            },
                            Some(e) => {
                                if k == m - 1 {
                                    proof {
                                        assert(tail.len() == 1);
                                        assert(walk(store@, cur@, tail) == Ok::<
                                            EntryV,
                                            PathError,
                                        >(e@));
                                    }
                                    return Ok(e);
                                }
                                match e.kind {
                                    EntryKind::Tree => {
                                        proof {
                                            assert(tail.skip(1) =~= segsv.skip(k as int + 1));
                                            assert(walk(store@, cur@, tail) == walk(
                                                store@,
                                                e@.id,
                                                segsv.skip(k as int + 1),
                                            ));
                                        }
                                        cur = e.id;
                                        k = k + 1;
                                    },
                                    EntryKind::Blob => {
                                        proof {
                                            assert(walk(store@, cur@, tail) == Err::<
                                                EntryV,
                                                PathError,
                                            >(PathError::PathNotFound));
                                        }
                                        return Err(PathError::PathNotFound);
                                    },
                                }
                            },
                        }
                    },
                    _ => {
                        proof {
                            assert(walk(store@, cur@, tail) == Err::<EntryV, PathError>(
                                PathError::PathNotFound,
                            ));
                        }
                        return Err(PathError::PathNotFound);
                    },
                }
            },
        }
    }
}

/// A bootstrapped store end to end: resolving the default ref returns the
/// root commit, which has no parents; its tree is the stored empty tree,
/// so listing that tree yields no entries; and the empty path within it
/// resolves to the tree itself. This holds whenever the backend's hash
/// gave the root tree and the root commit distinct ids, which is the
/// premise content addressing rests on.
pub proof fn lemma_bootstrap_end_to_end(author: Seq<char>, time: u64)
    requires
        ({
            let tid = object_id_of(ObjectV::Tree(Seq::empty()));
            let cv = CommitV {
                tree_id: tid,
                parent_ids: Seq::empty(),
                message: Some("Initial commit"@),
                author,
                time,
            };
            object_id_of(ObjectV::Commit(cv)) != tid
        }),
    ensures
        ({
            let s = spec_bootstrap(author, time);
            let tid = object_id_of(ObjectV::Tree(Seq::empty()));
            let cv = CommitV {
                tree_id: tid,
                parent_ids: Seq::empty(),
                message: Some("Initial commit"@),
                author,
                time,
            };
            &&& spec_resolve_ref(s, "HEAD"@) == Ok::<CommitV, RefError>(cv)
            &&& cv.parent_ids.len() == 0
            &&& (object_with_id(s.objects, cv.tree_id) matches Some(slot) && slot.obj
                == ObjectV::Tree(Seq::<EntryV>::empty()))
            &&& spec_lookup_path(s, tid, Seq::empty()) == Ok::<EntryV, PathError>(
                EntryV { name: Seq::empty(), id: tid, kind: EntryKind::Tree },
            )
        }),
{
    let s = spec_bootstrap(author, time);
    let tid = object_id_of(ObjectV::Tree(Seq::empty()));
    let cv = CommitV {
        tree_id: tid,
        parent_ids: Seq::empty(),
        message: Some("Initial commit"@),
        author,
        time,
    };
    let cid = object_id_of(ObjectV::Commit(cv));
    assert(s.refs[0].name == "HEAD"@);
    lemma_first_where_found(s.refs, |x: RefV| x.name == "HEAD"@, 0);
    assert(s.objects[0].id == tid);
    assert(s.objects[1].id == cid);
    lemma_first_where_found(s.objects, |x: SlotV| x.id == cid, 1);
    lemma_first_where_found(s.objects, |x: SlotV| x.id == tid, 0);
    lemma_lookup_path_empty(s, tid);
}

/// What looking a blob up by id returns: its bytes, `NotABlob` for an id
/// naming another kind of object, `ObjectNotFound` for an absent id.
pub open spec fn spec_read_blob(s: StoreV, id: Seq<u8>) -> Result<Seq<u8>, LookupError> {
    match object_with_id(s.objects, id) {
        None => Err(LookupError::ObjectNotFound),
        Some(slot) => match slot.obj {
            ObjectV::Blob(d) => Ok(d),
            _ => Err(LookupError::NotABlob),
        },
    }
}

/// Reads the blob stored under `id`.
pub fn read_blob(store: &Store, id: &ObjectId) -> (r: Result<Vec<u8>, LookupError>)
    ensures
        match r {
            Ok(d) => spec_read_blob(store@, id@) == Ok::<Seq<u8>, LookupError>(d@),
            Err(e) => spec_read_blob(store@, id@) == Err::<Seq<u8>, LookupError>(e),
        },
{
    match store.get_object(id) {
        None => Err(LookupError::ObjectNotFound),
        Some(o) => match o {
            Object::Blob(d) => Ok(d.clone()),
            _ => Err(LookupError::NotABlob),
        },
    }
}

/// A well-formed object id string at the API boundary: hexadecimal of
/// exactly twice the hash width.
pub open spec fn well_formed_id(s: Seq<char>) -> bool {
    s.len() == 40 && is_hex_seq(s)
}

/// Parses a caller-supplied object id string. A string that is not valid
/// hex of the expected width is rejected with `MalformedId` — before any
/// store lookup could be attempted, since no store takes part here at all.
pub fn parse_object_id(s: &str) -> (r: Result<ObjectId, LookupError>)
    ensures
        well_formed_id(s@) ==> (r matches Ok(id) && id@ == hex_decoded(s@)),
        !well_formed_id(s@) ==> r == Err::<ObjectId, LookupError>(LookupError::MalformedId),
{
    match hex_decode(s) {
        None => Err(LookupError::MalformedId),
        Some(b) => {
            if b.len() == 20 {
                Ok(ObjectId { bytes: b })
            } else {
                Err(LookupError::MalformedId)
            }
        },
    }
}

/// What reading a blob by its id string returns: `MalformedId` for a
/// string that is not hex of the fixed width — whatever the store holds —
/// and otherwise the blob lookup under the decoded id.
pub open spec fn spec_read_blob_hex(s: StoreV, id: Seq<char>) -> Result<Seq<u8>, LookupError> {
    if !well_formed_id(id) {
        Err(LookupError::MalformedId)
    } else {
        spec_read_blob(s, hex_decoded(id))
    }
}

/// A malformed id string is rejected uniformly: the verdict is
/// `MalformedId` for every store alike, so the store demonstrably takes
/// no part in it.
pub proof fn lemma_malformed_id_uniform(s1: StoreV, s2: StoreV, id: Seq<char>)
    requires
        !well_formed_id(id),
    ensures
        spec_read_blob_hex(s1, id) == spec_read_blob_hex(s2, id),
        spec_read_blob_hex(s1, id) == Err::<Seq<u8>, LookupError>(LookupError::MalformedId),
{
}

/// Reads a blob by its id string.
pub fn read_blob_hex(store: &Store, id_hex: &str) -> (r: Result<Vec<u8>, LookupError>)
    ensures
        match r {
            Ok(d) => spec_read_blob_hex(store@, id_hex@) == Ok::<Seq<u8>, LookupError>(d@),
            Err(e) => spec_read_blob_hex(store@, id_hex@) == Err::<Seq<u8>, LookupError>(e),
        },
{
    match parse_object_id(id_hex) {
        Err(e) => Err(e),
        Ok(id) => read_blob(store, &id),
    }
}

} // verus!
