//! Baskets: named, owned collections, each wrapping one content-addressed
//! object store. Name validation and the creation/loading rules live here.

use vstd::prelude::*;
use crate::db::{basket_with, has_user_id, user_with_name, Db, DbV};
use crate::permissions::{actor_view, has_permission, spec_has_permission, ActionV, UserAction};
use crate::user::{clone_opt_string, opt_view, AuthUser, PubUser, UserV};

verus! {

/// Upper bound (exclusive) on the length of a basket name or username.
pub const MAX_NAME_LEN: usize = 126;

/// A character allowed in basket names and usernames: ASCII alphanumeric
/// or hyphen.
pub open spec fn is_name_char(c: char) -> bool {
    let u = c as u32;
    (97 <= u && u <= 122) || (65 <= u && u <= 90) || (48 <= u && u <= 57) || u == 45
}

/// The charset rule for basket names and usernames: only ASCII alphanumeric
/// characters and hyphens, no leading hyphen, length below 126.
pub open spec fn valid_name(s: Seq<char>) -> bool {
    &&& forall|i: int| 0 <= i < s.len() ==> is_name_char(#[trigger] s[i])
    &&& s.len() > 0 ==> s[0] != '-'
    &&& s.len() < 126
}

/// Decides whether `s` is acceptable as a basket name (or username):
/// ASCII alphanumeric characters and hyphens only, not hyphen-leading,
/// and shorter than 126 characters. The empty string passes the charset
/// rule; emptiness is rejected separately on creation.
pub fn is_valid_name(s: &str) -> (r: bool)
    ensures
        r == valid_name(s@),
{
    let n = s.unicode_len();
    if n >= MAX_NAME_LEN {
        return false;
    }
    let mut i: usize = 0;
    while i < n
        invariant
            i <= n,
            n == s@.len(),
            n < 126,
            forall|j: int| 0 <= j < i ==> is_name_char(#[trigger] s@[j]),
            i > 0 ==> s@[0] != '-',
        decreases n - i,
    {
        let c = s.get_char(i);
        let u = c as u32;
        let ok = (97 <= u && u <= 122) || (65 <= u && u <= 90) || (48 <= u && u <= 57)
            || u == 45;
        if !ok {
            return false;
        }
        if i == 0 && u == 45 {
            return false;
        }
        i = i + 1;
    }
    true
}

/// Specification view of a basket record.
pub struct BasketV {
    pub id: int,
    pub name: Seq<char>,
    pub user_id: int,
    pub description: Option<Seq<char>>,
    pub public: bool,
    pub kind: Seq<char>,
    pub forked_from: Option<int>,
}

/// The view of an optional numeric id.
pub open spec fn opt_id_view(o: Option<i64>) -> Option<int> {
    match o {
        Some(n) => Some(n as int),
        None => None,
    }
}

/// A persisted basket row: a named, owned collection wrapping one
/// content-addressed object store. `(user_id, name)` is unique; the
/// `forked_from` link is write-once.
pub struct BasketRecord {
    pub id: i64,
    pub name: String,
    pub user_id: i64,
    pub description: Option<String>,
    pub public: bool,
    pub kind: String,
    pub forked_from: Option<i64>,
}

impl View for BasketRecord {
    type V = BasketV;

    open spec fn view(&self) -> BasketV {
        BasketV {
            id: self.id as int,
            name: self.name@,
            user_id: self.user_id as int,
            description: opt_view(self.description),
            public: self.public,
            kind: self.kind@,
            forked_from: opt_id_view(self.forked_from),
        }
    }
}

impl Clone for BasketRecord {
    fn clone(&self) -> (r: Self)
        ensures
            r@ == self@,
    {
        BasketRecord {
            id: self.id,
            name: self.name.clone(),
            user_id: self.user_id,
            description: clone_opt_string(&self.description),
            public: self.public,
            kind: self.kind.clone(),
            forked_from: match self.forked_from {
                Some(n) => Some(n),
                None => None,
            },
        }
    }
}

impl BasketRecord {
    /// Whether everyone may view this basket.
    pub fn is_public(&self) -> (r: bool)
        ensures
            r == self@.public,
    {
        self.public
    }

    /// The basket's name.
    pub fn name(&self) -> (r: &str)
        ensures
            r@ == self@.name,
    {
        self.name.as_str()
    }

    /// The description, if one is set.
    pub fn description(&self) -> (r: Option<&str>)
        ensures
            match r {
                Some(s) => self@.description == Some(s@),
                None => self@.description is None,
            },
    {
        match &self.description {
            Some(s) => Some(s.as_str()),
            None => None,
        }
    }

    /// The kind tag.
    pub fn kind(&self) -> (r: &str)
        ensures
            r@ == self@.kind,
    {
        self.kind.as_str()
    }
}

/// A basket row about to be persisted.
pub struct NewBasket {
    pub name: String,
    pub user_id: i64,
    pub description: Option<String>,
    pub public: bool,
    pub kind: String,
    pub forked_from: Option<i64>,
}

/// The form a caller fills in to create a basket.
pub struct NewBasketForm {
    pub owner: String,
    pub name: String,
    pub description: String,
    pub is_public: bool,
    pub kind: String,
}

/// Why creating a basket failed (specification view).
#[derive(PartialEq, Eq, Structural, Debug)]
pub enum CreateErrorV {
    NoPermission,
    NameEmpty,
    NameInvalid,
    NameAlreadyUsed,
}

/// Why creating a basket failed.
#[derive(Debug)]
pub enum CreateError {
    /// The acting identity may not create a basket for the given owner.
    NoPermission { owner: String },
    /// The basket's name is empty.
    NameEmpty,
    /// The basket's name breaks the charset or length rule.
    NameInvalid,
    /// The owner already has a basket of that name.
    NameAlreadyUsed,
}

impl View for CreateError {
    type V = CreateErrorV;

    open spec fn view(&self) -> CreateErrorV {
        match self {
            CreateError::NoPermission { .. } => CreateErrorV::NoPermission,
            CreateError::NameEmpty => CreateErrorV::NameEmpty,
            CreateError::NameInvalid => CreateErrorV::NameInvalid,
            CreateError::NameAlreadyUsed => CreateErrorV::NameAlreadyUsed,
        }
    }
}

impl CreateError {
    /// A user-facing description of the failure, safe to show verbatim.
    pub fn message(&self) -> (r: String)
        ensures
            match self {
                CreateError::NoPermission { owner } => r@
                    == "You don't have the permission to create a basket for '"@ + owner@ + "'!"@,
                CreateError::NameEmpty => r@ == "The basket's name can't be empty!"@,
                CreateError::NameInvalid => r@
                    == "The basket's name contains invalid characters! Only alphanumerical ASCII characters and dashes are allowed."@,
                CreateError::NameAlreadyUsed => r@
                    == "A repository with the given name already exists for the given owner"@,
            },
    {
        match self {
            CreateError::NoPermission { owner } => {
                let mut s = String::from_str(
                    "You don't have the permission to create a basket for '",
                );
                s.append(owner.as_str());
                s.append("'!");
                s
            },
            CreateError::NameEmpty => String::from_str("The basket's name can't be empty!"),
            CreateError::NameInvalid => String::from_str(
                "The basket's name contains invalid characters! Only alphanumerical ASCII characters and dashes are allowed.",
            ),
            CreateError::NameAlreadyUsed => String::from_str(
                "A repository with the given name already exists for the given owner",
            ),
        }
    }
}

/// Whitespace for the purposes of description trimming: the Unicode
/// `White_Space` characters, the set the standard trim removes.
pub open spec fn is_space(c: char) -> bool {
    let u = c as u32;
    (9 <= u && u <= 13) || u == 32 || u == 0x85 || u == 0xa0 || u == 0x1680 || (0x2000 <= u && u
        <= 0x200a) || u == 0x2028 || u == 0x2029 || u == 0x202f || u == 0x205f || u == 0x3000
}

/// How many whitespace characters the sequence starts with.
pub open spec fn leading_spaces(s: Seq<char>) -> int
    decreases s.len(),
{
    if s.len() == 0 {
        0
    } else if !is_space(s[0]) {
        0
    } else {
        1 + leading_spaces(s.skip(1))
    }
}

/// How many whitespace characters the sequence ends with.
pub open spec fn trailing_spaces(s: Seq<char>) -> int
    decreases s.len(),
{
    if s.len() == 0 {
        0
    } else if !is_space(s.last()) {
        0
    } else {
        1 + trailing_spaces(s.drop_last())
    }
}

/// The sequence with leading and trailing whitespace removed; empty when
/// it is whitespace throughout.
pub open spec fn trimmed(s: Seq<char>) -> Seq<char> {
    if leading_spaces(s) == s.len() {
        Seq::empty()
    } else {
        s.subrange(leading_spaces(s), s.len() - trailing_spaces(s))
    }
}

/// While the first `i` characters are whitespace, the leading count is `i`
/// plus the leading count of the remainder.
pub proof fn lemma_leading_skip(s: Seq<char>, i: int)
    requires
        0 <= i <= s.len(),
        forall|j: int| 0 <= j < i ==> is_space(s[j]),
    ensures
        leading_spaces(s) == i + leading_spaces(s.skip(i)),
    decreases i,
{
    if i == 0 {
        assert(s.skip(0) =~= s);
    } else {
        lemma_leading_skip(s, i - 1);
        let t = s.skip(i - 1);
        assert(t[0] == s[i - 1]);
        assert(t.skip(1) =~= s.skip(i));
        assert(leading_spaces(t) == 1 + leading_spaces(t.skip(1)));
    }
}

/// While everything from `b` on is whitespace, the trailing count is the
/// suffix length plus the trailing count of the prefix.
pub proof fn lemma_trailing_take(s: Seq<char>, b: int)
    requires
        0 <= b <= s.len(),
        forall|k: int| b <= k < s.len() ==> is_space(s[k]),
    ensures
        trailing_spaces(s) == s.len() - b + trailing_spaces(s.take(b)),
    decreases s.len(),
{
    if b == s.len() {
        assert(s.take(b) =~= s);
    } else {
        assert(is_space(s.last()));
        assert(trailing_spaces(s) == 1 + trailing_spaces(s.drop_last()));
        let t = s.drop_last();
        assert(t =~= s.take(s.len() - 1));
        assert forall|k: int| b <= k < t.len() implies is_space(t[k]) by {
            assert(t[k] == s[k]);
        }
        lemma_trailing_take(t, b);
        assert(t.take(b) =~= s.take(b));
    }
}

/// Decides whitespace.
pub fn is_space_char(c: char) -> (r: bool)
    ensures
        r == is_space(c),
{
    let u = c as u32;
    (9 <= u && u <= 13) || u == 32 || u == 0x85 || u == 0xa0 || u == 0x1680 || (0x2000 <= u && u
        <= 0x200a) || u == 0x2028 || u == 0x2029 || u == 0x202f || u == 0x205f || u == 0x3000
}

fn space_at(s: &str, i: usize) -> (r: bool)
    requires
        i <= s@.len(),
    ensures
        r == (i < s@.len() && is_space(s@[i as int])),
{
    if i < s.unicode_len() {
        is_space_char(s.get_char(i))
    } else {
        false
    }
}

/// Trims a description, turning an all-whitespace one into `None`.
pub fn trim_description(s: &str) -> (r: Option<String>)
    ensures
        match r {
            Some(t) => trimmed(s@).len() > 0 && t@ == trimmed(s@),
            None => trimmed(s@).len() == 0,
        },
{
    let n = s.unicode_len();
    let mut a: usize = 0;
    while space_at(s, a)
        invariant
            a <= n,
            n == s@.len(),
            forall|j: int| 0 <= j < a ==> is_space(s@[j]),
        decreases n - a,
    {
        a = a + 1;
    }
    if a == n {
        proof {
            lemma_leading_skip(s@, n as int);
            assert(s@.skip(n as int) =~= Seq::<char>::empty());
            assert(leading_spaces(s@) == n as int);
        }
        return None;
    }
    proof {
        lemma_leading_skip(s@, a as int);
        assert(s@.skip(a as int)[0] == s@[a as int]);
        assert(leading_spaces(s@.skip(a as int)) == 0);
        assert(leading_spaces(s@) == a as int);
    }
    let mut b: usize = n;
    while b > a && space_at(s, b - 1)
        invariant
            a < n,
            a <= b <= n,
            n == s@.len(),
            !is_space(s@[a as int]),
            forall|k: int| b <= k < n ==> is_space(s@[k]),
        decreases b,
    {
        b = b - 1;
    }
    proof {
        if b == a {
            assert(is_space(s@[a as int]));
            assert(false);
        }
        assert(!is_space(s@[b - 1]));
        lemma_trailing_take(s@, b as int);
        let t = s@.take(b as int);
        assert(t.last() == s@[b - 1]);
        assert(trailing_spaces(t) == 0);
        assert(trailing_spaces(s@) == n - b);
        assert(trimmed(s@) == s@.subrange(a as int, b as int));
    }
    let out = s.substring_char(a, b).to_owned();
    Some(out)
}

/// A basket joined to its owner's public identity.
pub struct Basket {
    pub record: BasketRecord,
    pub user: PubUser,
}

/// What creating a basket decides and does to the store. Checked in
/// order: the permission to create for the owner; a non-empty name; the
/// charset and length rule; then the uniqueness of `(owner, name)`, whose
/// violation surfaces as `NameAlreadyUsed`. The description is trimmed,
/// an all-whitespace one stored as absent. An owner the store does not
/// know cannot be created for. Atomic: on any error the store is
/// untouched; on success exactly the one row is added.
pub open spec fn spec_create(
    db: DbV,
    actor: Option<UserV>,
    owner: Seq<char>,
    name: Seq<char>,
    description: Seq<char>,
    public: bool,
    kind: Seq<char>,
) -> (Result<BasketV, CreateErrorV>, DbV) {
    if !spec_has_permission(actor, ActionV::CreateBasket { owner }) {
        (Err(CreateErrorV::NoPermission), db)
    } else if name.len() == 0 {
        (Err(CreateErrorV::NameEmpty), db)
    } else if !valid_name(name) {
        (Err(CreateErrorV::NameInvalid), db)
    } else {
        match user_with_name(db.users, owner) {
            None => (Err(CreateErrorV::NoPermission), db),
            Some(u) => {
                if basket_with(db.baskets, u.id, name) is Some {
                    (Err(CreateErrorV::NameAlreadyUsed), db)
                } else {
                    let d = trimmed(description);
                    let bv = BasketV {
                        id: db.next_basket_id,
                        name,
                        user_id: u.id,
                        description: if d.len() == 0 {
                            None
                        } else {
                            Some(d)
                        },
                        public,
                        kind,
                        forked_from: None,
                    };
                    (
                        Ok(bv),
                        DbV {
                            baskets: db.baskets.push(bv),
                            next_basket_id: db.next_basket_id + 1,
                            ..db
                        },
                    )
                }
            },
        }
    }
}

/// What loading a basket returns: the row under `(owner, name)` joined to
/// its owner, but only where the actor may view it. Absence and denial
/// are both `None` — an unauthorized caller cannot tell a private basket
/// from a nonexistent one.
pub open spec fn spec_load(
    db: DbV,
    name: Seq<char>,
    owner: Seq<char>,
    actor: Option<UserV>,
) -> Option<(BasketV, UserV)> {
    match user_with_name(db.users, owner) {
        None => None,
        Some(u) => match basket_with(db.baskets, u.id, name) {
            None => None,
            Some(b) => if spec_has_permission(
                actor,
                ActionV::ViewBasket { owner: u, basket: b },
            ) {
                Some((b, u))
            } else {
                None
            },
        },
    }
}

/// Anonymous callers only ever see public baskets: whatever the store
/// holds, a `None` from an anonymous load reveals nothing — a private
/// basket and a nonexistent one are observationally the same.
pub proof fn lemma_anonymous_sees_only_public(db: DbV, name: Seq<char>, owner: Seq<char>)
    ensures
        spec_load(db, name, owner, None) matches Some(p) ==> p.0.public,
{
}

/// The other face of the same coin: where the basket is absent or not
/// public, an anonymous load returns `None` — exactly what it returns for
/// a basket that does not exist at all.
pub proof fn lemma_denial_matches_absence(db: DbV, name: Seq<char>, owner: Seq<char>)
    requires
        match user_with_name(db.users, owner) {
            Some(u) => match basket_with(db.baskets, u.id, name) {
                Some(b) => !b.public,
                None => true,
            },
            None => true,
        },
    ensures
        spec_load(db, name, owner, None) is None,
{
}

/// The uniqueness of `(owner, name)` is the mutual-exclusion point for
/// creation: of two creations with the same owner and name, at most one
/// succeeds — after a successful one, the other (whatever description,
/// visibility or kind it carries) observes `NameAlreadyUsed`, with the
/// store unchanged.
pub proof fn lemma_create_race(
    db: DbV,
    actor: Option<UserV>,
    actor2: Option<UserV>,
    owner: Seq<char>,
    name: Seq<char>,
    d1: Seq<char>,
    d2: Seq<char>,
    p1: bool,
    p2: bool,
    k1: Seq<char>,
    k2: Seq<char>,
)
    requires
        db.wf(),
        spec_create(db, actor, owner, name, d1, p1, k1).0 is Ok,
        spec_has_permission(actor2, ActionV::CreateBasket { owner }),
    ensures
        ({
            let db2 = spec_create(db, actor, owner, name, d1, p1, k1).1;
            &&& spec_create(db2, actor2, owner, name, d2, p2, k2).0 == Err::<
                BasketV,
                CreateErrorV,
            >(CreateErrorV::NameAlreadyUsed)
            &&& spec_create(db2, actor2, owner, name, d2, p2, k2).1 == db2
        }),
{
    let db2 = spec_create(db, actor, owner, name, d1, p1, k1).1;
    let u = user_with_name(db.users, owner).unwrap();
    let bv = spec_create(db, actor, owner, name, d1, p1, k1).0.unwrap();
    assert(db2.users == db.users);
    assert(db2.baskets == db.baskets.push(bv));
    crate::search::lemma_first_where_none_implies(
        db.baskets,
        |b: BasketV| b.user_id == u.id && b.name == name,
    );
    assert(db2.baskets[db.baskets.len() as int] == bv);
    crate::search::lemma_first_where_complete(
        db2.baskets,
        |b: BasketV| b.user_id == u.id && b.name == name,
        db.baskets.len() as int,
    );
}

impl Basket {
    /// Joins a basket row to its owner.
    pub fn from_parts(record: BasketRecord, user: PubUser) -> (r: Self)
        ensures
            r.record@ == record@,
            r.user@ == user@,
    {
        Self { record, user }
    }

    /// The basket row underneath.
    pub fn record(&self) -> (r: &BasketRecord)
        ensures
            r@ == self.record@,
    {
        &self.record
    }

    /// Creates a basket from the filled-in form, on behalf of `auth_user`.
    /// Permission, name validity and `(owner, name)` uniqueness are
    /// checked in that order; all-or-nothing on the store.
    pub fn create(new: NewBasketForm, auth_user: &AuthUser, db: &mut Db) -> (r: Result<
        Basket,
        CreateError,
    >)
        requires
            old(db)@.wf(),
            old(db)@.next_basket_id < i64::MAX,
        ensures
            final(db)@.wf(),
            ({
                let outcome = spec_create(
                    old(db)@,
                    Some(auth_user.user@),
                    new.owner@,
                    new.name@,
                    new.description@,
                    new.is_public,
                    new.kind@,
                );
                &&& final(db)@ == outcome.1
                &&& match r {
                    Ok(b) => outcome.0 == Ok::<BasketV, CreateErrorV>(b.record@) && Some(b.user@)
                        == user_with_name(old(db)@.users, new.owner@),
                    Err(e) => outcome.0 matches Err(ev) && ev == e@ && (match e {
                        CreateError::NoPermission { owner } => owner@ == new.owner@,
                        _ => true,
                    }),
                }
            }),
    {
        let NewBasketForm { owner, name, description, is_public, kind } = new;
        let action = UserAction::CreateBasket { owner: owner.clone() };
        if !has_permission(Some(auth_user), &action) {
            return Err(CreateError::NoPermission { owner });
        }
        if name.as_str().unicode_len() == 0 {
            return Err(CreateError::NameEmpty);
        }
        if !is_valid_name(name.as_str()) {
            return Err(CreateError::NameInvalid);
        }
        match db.user_by_username(owner.as_str()) {
            None => Err(CreateError::NoPermission { owner }),
            Some(owner_user) => {
                proof {
                    crate::search::lemma_first_where_sound(
                        db@.users,
                        |x: UserV| x.username == owner@,
                    );
                    let k = choose|k: int|
                        0 <= k < db@.users.len() && db@.users[k] == owner_user@;
                    assert(db@.users[k].id == owner_user@.id);
                    assert(has_user_id(db@.users, owner_user.id as int));
                }
                let trimmed_description = trim_description(description.as_str());
                match db.create_basket_row(
                    owner_user.id,
                    name,
                    trimmed_description,
                    is_public,
                    kind,
                ) {
                    None => Err(CreateError::NameAlreadyUsed),
                    Some(record) => Ok(Basket { record, user: PubUser::from_user(owner_user) }),
                }
            },
        }
    }

    /// Loads the basket `name` of `owner`, as seen by `auth_user` (or by
    /// an anonymous caller). `None` uniformly for a basket that does not
    /// exist and one the actor may not view.
    pub fn load(name: &str, owner: &str, auth_user: Option<&AuthUser>, db: &Db) -> (r: Option<
        Basket,
    >)
        requires
            db@.wf(),
        ensures
            match r {
                Some(b) => spec_load(db@, name@, owner@, actor_view(auth_user)) == Some(
                    (b.record@, b.user@),
                ),
                None => spec_load(db@, name@, owner@, actor_view(auth_user)) is None,
            },
    {
        match db.user_by_username(owner) {
            None => None,
            Some(u) => {
                match db.basket_by(u.id, name) {
                    None => None,
                    Some(record) => {
                        let user = PubUser::from_user(u);
                        let action = UserAction::ViewBasket {
                            owner: user.clone(),
                            basket: record.clone(),
                        };
                        if has_permission(auth_user, &action) {
                            Some(Basket { record, user })
                        } else {
                            None
                        }
                    },
                }
            },
        }
    }

    /// The owner's username.
    pub fn owner(&self) -> (r: &str)
        ensures
            r@ == self.user@.username,
    {
        self.user.username()
    }

    /// The basket's address path.
    pub fn url(&self) -> (r: String)
        ensures
            r@ == "/"@ + self.user@.username + "/"@ + self.record@.name,
    {
        let mut s = String::from_str("/");
        s.append(self.user.username());
        s.append("/");
        s.append(self.record.name.as_str());
        s
    }

    /// The deterministic locator of the basket's backing object store:
    /// one store directory per basket, derived from the owner's username
    /// and the basket's name. The persistence wiring opens the store at
    /// exactly this path.
    pub fn store_path(&self) -> (r: String)
        ensures
            r@ == "repos/"@ + self.user@.username + "/"@ + self.record@.name,
    {
        let mut s = String::from_str("repos/");
        s.append(self.user.username());
        s.append("/");
        s.append(self.record.name.as_str());
        s
    }
}

} // verus!

