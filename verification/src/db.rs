//! The persistence model backing identities, email addresses, sessions and
//! basket rows: a serially-used store with explicit uniqueness invariants.
//! Every operation is specified against the mathematical view `DbV`; the
//! uniqueness of `(owner, name)` on baskets is the mutual-exclusion point
//! that serializes concurrent creation.

use vstd::prelude::*;
use crate::basket::{valid_name, BasketRecord, BasketV};
use crate::search::{
    first_where, lemma_first_where_complete, lemma_first_where_found, lemma_first_where_none,
    lemma_first_where_none_implies, lemma_first_where_sound, remove_first_where,
};
use crate::session::{Session, SessionV};
use crate::user::{valid_username, EmailV, User, UserEmail, UserV};

verus! {

/// Specification view of the whole persistent state.
#[verifier::ext_equal]
pub struct DbV {
    pub users: Seq<UserV>,
    pub emails: Seq<EmailV>,
    pub sessions: Seq<SessionV>,
    pub baskets: Seq<BasketV>,
    pub next_user_id: int,
    pub next_basket_id: int,
}

/// The identity stored under a username, if any.
pub open spec fn user_with_name(users: Seq<UserV>, name: Seq<char>) -> Option<UserV> {
    first_where(users, |u: UserV| u.username == name)
}

/// The identity stored under a numeric id, if any.
pub open spec fn user_with_id(users: Seq<UserV>, id: int) -> Option<UserV> {
    first_where(users, |u: UserV| u.id == id)
}

/// The email row stored under an address, if any.
pub open spec fn email_with_addr(emails: Seq<EmailV>, addr: Seq<char>) -> Option<EmailV> {
    first_where(emails, |e: EmailV| e.email == addr)
}

/// The session stored under a token id, if any.
pub open spec fn session_with_id(sessions: Seq<SessionV>, id: Seq<u8>) -> Option<SessionV> {
    first_where(sessions, |s: SessionV| s.id == id)
}

/// The sessions with the row under `id` (if any) deleted.
pub open spec fn without_session(sessions: Seq<SessionV>, id: Seq<u8>) -> Seq<SessionV> {
    remove_first_where(sessions, |s: SessionV| s.id == id)
}

/// The basket stored under an owner id and name, if any.
pub open spec fn basket_with(baskets: Seq<BasketV>, user_id: int, name: Seq<char>) -> Option<
    BasketV,
> {
    first_where(baskets, |b: BasketV| b.user_id == user_id && b.name == name)
}

/// Whether some stored identity carries the id.
pub open spec fn has_user_id(users: Seq<UserV>, id: int) -> bool {
    exists|k: int| 0 <= k < users.len() && (#[trigger] users[k]).id == id
}

impl DbV {
    /// Uniqueness and referential invariants of the store: user ids and
    /// usernames unique, email addresses unique, session ids unique and of
    /// the fixed length, basket ids and `(owner, name)` pairs unique; all
    /// foreign keys resolve; names obey their charset rules; the id
    /// counters bound every stored id.
    pub open spec fn wf(self) -> bool {
        &&& forall|i: int, j: int|
            0 <= i < j < self.users.len() ==> (#[trigger] self.users[i]).id != (
            #[trigger] self.users[j]).id && self.users[i].username != self.users[j].username
        &&& forall|i: int|
            0 <= i < self.users.len() ==> valid_username((#[trigger] self.users[i]).username)
                && self.users[i].username.len() > 0 && self.users[i].id < self.next_user_id
        &&& forall|i: int, j: int|
            0 <= i < j < self.emails.len() ==> (#[trigger] self.emails[i]).email != (
            #[trigger] self.emails[j]).email
        &&& forall|i: int|
            0 <= i < self.emails.len() ==> has_user_id(
                self.users,
                (#[trigger] self.emails[i]).user_id,
            )
        &&& forall|i: int, j: int|
            0 <= i < j < self.sessions.len() ==> (#[trigger] self.sessions[i]).id != (
            #[trigger] self.sessions[j]).id
        &&& forall|i: int|
            0 <= i < self.sessions.len() ==> (#[trigger] self.sessions[i]).id.len() == 16
                && has_user_id(self.users, self.sessions[i].user_id)
        &&& forall|i: int, j: int|
            0 <= i < j < self.baskets.len() ==> (#[trigger] self.baskets[i]).id != (
            #[trigger] self.baskets[j]).id && !(self.baskets[i].user_id
                == self.baskets[j].user_id && self.baskets[i].name == self.baskets[j].name)
        &&& forall|i: int|
            0 <= i < self.baskets.len() ==> valid_name((#[trigger] self.baskets[i]).name)
                && self.baskets[i].name.len() > 0 && self.baskets[i].id < self.next_basket_id
                && has_user_id(self.users, self.baskets[i].user_id)
    }
}

/// If a user id occurs at all, looking it up finds a row.
pub proof fn lemma_has_user_id_found(users: Seq<UserV>, id: int)
    requires
        has_user_id(users, id),
    ensures
        user_with_id(users, id) is Some,
{
    let k = choose|k: int| 0 <= k < users.len() && (#[trigger] users[k]).id == id;
    lemma_first_where_complete(users, |u: UserV| u.id == id, k);
}

/// Appending a row keeps every resolvable user id resolvable.
pub proof fn lemma_has_user_id_push(users: Seq<UserV>, id: int, u: UserV)
    requires
        has_user_id(users, id),
    ensures
        has_user_id(users.push(u), id),
{
    let k = choose|k: int| 0 <= k < users.len() && (#[trigger] users[k]).id == id;
    assert(users.push(u)[k] == users[k]);
}

/// The in-memory persistent store. One value of this type stands for the
/// relational rows the service keeps; requests borrow it (mutably for the
/// few write paths) for their duration.
pub struct Db {
    pub users: Vec<User>,
    pub emails: Vec<UserEmail>,
    pub sessions: Vec<Session>,
    pub baskets: Vec<BasketRecord>,
    pub next_user_id: i64,
    pub next_basket_id: i64,
}

impl View for Db {
    type V = DbV;

    open spec fn view(&self) -> DbV {
        DbV {
            users: self.users@.map_values(|u: User| u@),
            emails: self.emails@.map_values(|e: UserEmail| e@),
            sessions: self.sessions@.map_values(|s: Session| s@),
            baskets: self.baskets@.map_values(|b: BasketRecord| b@),
            next_user_id: self.next_user_id as int,
            next_basket_id: self.next_basket_id as int,
        }
    }
}

impl Db {
    /// An empty store, with both id counters starting at one.
    pub fn new() -> (r: Db)
        ensures
            r@.wf(),
            r@.users == Seq::<UserV>::empty(),
            r@.emails == Seq::<EmailV>::empty(),
            r@.sessions == Seq::<SessionV>::empty(),
            r@.baskets == Seq::<BasketV>::empty(),
            r@.next_user_id == 1,
            r@.next_basket_id == 1,
    {
        let r = Db {
            users: Vec::new(),
            emails: Vec::new(),
            sessions: Vec::new(),
            baskets: Vec::new(),
            next_user_id: 1,
            next_basket_id: 1,
        };
        proof {
            assert(r@.users =~= Seq::<UserV>::empty());
            assert(r@.emails =~= Seq::<EmailV>::empty());
            assert(r@.sessions =~= Seq::<SessionV>::empty());
            assert(r@.baskets =~= Seq::<BasketV>::empty());
        }
        r
    }

    /// Looks an identity up by username.
    pub fn user_by_username(&self, name: &str) -> (r: Option<User>)
        ensures
            match r {
                Some(u) => user_with_name(self@.users, name@) == Some(u@),
                None => user_with_name(self@.users, name@) is None,
            },
    {
        let n = self.users.len();
        let mut i: usize = 0;
        while i < n
            invariant
                i <= n,
                n == self.users.len(),
                forall|j: int| 0 <= j < i ==> (#[trigger] self@.users[j]).username != name@,
            decreases n - i,
        {
            if crate::collaborators::str_eq(self.users[i].username.as_str(), name) {
                proof {
                    lemma_first_where_found(
                        self@.users,
                        |u: UserV| u.username == name@,
                        i as int,
                    );
                }
                return Some(self.users[i].clone());
            }
            i = i + 1;
        }
        proof {
            lemma_first_where_none(self@.users, |u: UserV| u.username == name@);
        }
        None
    }

    /// Looks an identity up by numeric id.
    pub fn user_by_id(&self, id: i64) -> (r: Option<User>)
        ensures
            match r {
                Some(u) => user_with_id(self@.users, id as int) == Some(u@),
                None => user_with_id(self@.users, id as int) is None,
            },
    {
        let n = self.users.len();
        let mut i: usize = 0;
        while i < n
            invariant
                i <= n,
                n == self.users.len(),
                forall|j: int| 0 <= j < i ==> (#[trigger] self@.users[j]).id != id as int,
            decreases n - i,
        {
            if self.users[i].id == id {
                proof {
                    lemma_first_where_found(self@.users, |u: UserV| u.id == id as int, i as int);
                }
                return Some(self.users[i].clone());
            }
            i = i + 1;
        }
        proof {
            lemma_first_where_none(self@.users, |u: UserV| u.id == id as int);
        }
        None
    }

    /// Looks an identity up by email address, joining the email row to its
    /// owner.
    pub fn user_by_email(&self, addr: &str) -> (r: Option<User>)
        requires
            self@.wf(),
        ensures
            match r {
                Some(u) => email_with_addr(self@.emails, addr@) matches Some(e) && user_with_id(
                    self@.users,
                    e.user_id,
                ) == Some(u@),
                None => email_with_addr(self@.emails, addr@) is None,
            },
    {
        let n = self.emails.len();
        let mut i: usize = 0;
        while i < n
            invariant
                i <= n,
                n == self.emails.len(),
                self@.wf(),
                forall|j: int| 0 <= j < i ==> (#[trigger] self@.emails[j]).email != addr@,
            decreases n - i,
        {
            if crate::collaborators::str_eq(self.emails[i].email.as_str(), addr) {
                proof {
                    lemma_first_where_found(self@.emails, |e: EmailV| e.email == addr@, i as int);
                    lemma_has_user_id_found(self@.users, self@.emails[i as int].user_id);
                }
                let owner = self.user_by_id(self.emails[i].user_id);
                assert(owner is Some);
                return owner;
            }
            i = i + 1;
        }
        proof {
            lemma_first_where_none(self@.emails, |e: EmailV| e.email == addr@);
        }
        None
    }

    /// Looks a session up by its exact byte id.
    pub fn session_by_id(&self, id: &Vec<u8>) -> (r: Option<Session>)
        ensures
            match r {
                Some(s) => session_with_id(self@.sessions, id@) == Some(s@),
                None => session_with_id(self@.sessions, id@) is None,
            },
    {
        let n = self.sessions.len();
        let mut i: usize = 0;
        while i < n
            invariant
                i <= n,
                n == self.sessions.len(),
                forall|j: int| 0 <= j < i ==> (#[trigger] self@.sessions[j]).id != id@,
            decreases n - i,
        {
            if self.sessions[i].id == *id {
                proof {
                    assert(self@.sessions[i as int].id =~= id@);
                    lemma_first_where_found(self@.sessions, |s: SessionV| s.id == id@, i as int);
                }
                return Some(self.sessions[i].clone());
            }
            i = i + 1;
        }
        proof {
            lemma_first_where_none(self@.sessions, |s: SessionV| s.id == id@);
        }
        None
    }

    /// Registers an identity under a fresh id. Returns the id, or `None`
    /// if the username breaks the charset rule, is empty or already taken,
    /// or the id counter is exhausted.
    pub fn add_user(
        &mut self,
        username: String,
        name: Option<String>,
        password: Option<String>,
        bio: Option<String>,
    ) -> (r: Option<i64>)
        requires
            old(self)@.wf(),
        ensures
            final(self)@.wf(),
            ({
                let ok = valid_username(username@) && username@.len() > 0 && user_with_name(
                    old(self)@.users,
                    username@,
                ) is None && old(self)@.next_user_id < i64::MAX;
                if ok {
                    r matches Some(id) && id as int == old(self)@.next_user_id && final(self)@
                        == (DbV {
                        users: old(self)@.users.push(
                            UserV {
                                id: old(self)@.next_user_id,
                                username: username@,
                                name: crate::user::opt_view(name),
                                password: crate::user::opt_view(password),
                                bio: crate::user::opt_view(bio),
                            },
                        ),
                        next_user_id: old(self)@.next_user_id + 1,
                        ..old(self)@
                    })
                } else {
                    r is None && final(self)@ == old(self)@
                }
            }),
    {
        if !crate::user::is_valid_username(username.as_str()) {
            return None;
        }
        if username.as_str().unicode_len() == 0 {
            return None;
        }
        if self.next_user_id == i64::MAX {
            return None;
        }
        match self.user_by_username(username.as_str()) {
            Some(_) => None,
            None => {
                let id = self.next_user_id;
                let ghost oldv = self@;
                let ghost uv = UserV {
                    id: id as int,
                    username: username@,
                    name: crate::user::opt_view(name),
                    password: crate::user::opt_view(password),
                    bio: crate::user::opt_view(bio),
                };
                let u = User { id, username, name, password, bio };
                proof {
                    assert(u@ == uv);
                }
                self.users.push(u);
                self.next_user_id = id + 1;
                proof {
                    assert(self@.users =~= oldv.users.push(uv));
                    assert(self@ =~= (DbV {
                        users: oldv.users.push(uv),
                        next_user_id: oldv.next_user_id + 1,
                        ..oldv
                    }));
                    lemma_first_where_none_implies(
                        oldv.users,
                        |x: UserV| x.username == username@,
                    );
                    let newv = self@;
                    assert forall|i: int|
                        0 <= i < newv.emails.len() implies has_user_id(
                        newv.users,
                        (#[trigger] newv.emails[i]).user_id,
                    ) by {
                        lemma_has_user_id_push(oldv.users, newv.emails[i].user_id, uv);
                    }
                    assert forall|i: int|
                        0 <= i < newv.sessions.len() implies has_user_id(
                        newv.users,
                        (#[trigger] newv.sessions[i]).user_id,
                    ) by {
                        lemma_has_user_id_push(oldv.users, newv.sessions[i].user_id, uv);
                    }
                    assert forall|i: int|
                        0 <= i < newv.baskets.len() implies has_user_id(
                        newv.users,
                        (#[trigger] newv.baskets[i]).user_id,
                    ) by {
                        lemma_has_user_id_push(oldv.users, newv.baskets[i].user_id, uv);
                    }
                }
                Some(id)
            },
        }
    }

    /// Binds an email address to an identity. Returns whether the row was
    /// added; an address already bound, or an unknown identity, changes
    /// nothing.
    pub fn add_email(&mut self, email: String, user_id: i64) -> (r: bool)
        requires
            old(self)@.wf(),
        ensures
            final(self)@.wf(),
            ({
                let ok = email_with_addr(old(self)@.emails, email@) is None && has_user_id(
                    old(self)@.users,
                    user_id as int,
                );
                if ok {
                    r && final(self)@ == (DbV {
                        emails: old(self)@.emails.push(
                            EmailV { email: email@, user_id: user_id as int },
                        ),
                        ..old(self)@
                    })
                } else {
                    !r && final(self)@ == old(self)@
                }
            }),
    {
        match self.user_by_id(user_id) {
            None => {
                proof {
                    if has_user_id(self@.users, user_id as int) {
                        lemma_has_user_id_found(self@.users, user_id as int);
                    }
                }
                false
            },
            Some(owner) => {
                let n = self.emails.len();
                let mut i: usize = 0;
                while i < n
                    invariant
                        i <= n,
                        self@ == old(self)@,
                        old(self)@.wf(),
                        n == self.emails.len(),
                        forall|j: int| 0 <= j < i ==> (#[trigger] self@.emails[j]).email != email@,
                    decreases n - i,
                {
                    if crate::collaborators::str_eq(self.emails[i].email.as_str(), email.as_str()) {
                        proof {
                            lemma_first_where_complete(
                                self@.emails,
                                |e: EmailV| e.email == email@,
                                i as int,
                            );
                        }
                        return false;
                    }
                    i = i + 1;
                }
                proof {
                    lemma_first_where_none(self@.emails, |e: EmailV| e.email == email@);
                }
                let ghost oldv = self@;
                let ghost ev = EmailV { email: email@, user_id: user_id as int };
                let row = UserEmail { email, user_id };
                proof {
                    assert(row@ == ev);
                }
                self.emails.push(row);
                proof {
                    assert(self@.emails =~= oldv.emails.push(ev));
                    assert(self@ =~= (DbV { emails: oldv.emails.push(ev), ..oldv }));
                    lemma_first_where_none_implies(oldv.emails, |e: EmailV| e.email == email@);
                    lemma_first_where_sound(oldv.users, |u: UserV| u.id == user_id as int);
                    let u = user_with_id(oldv.users, user_id as int).unwrap();
                    assert(u.id == user_id as int && oldv.users.contains(u));
                    let k = choose|k: int| 0 <= k < oldv.users.len() && oldv.users[k] == u;
                    assert(oldv.users[k].id == user_id as int);
                    assert(has_user_id(oldv.users, user_id as int));
                }
                true
            },
        }
    }

    /// Persists a session row under the given id, born at `birth`. The row
    /// is added exactly when the id has the fixed length, its owner exists
    /// and no session carries the same id; otherwise nothing changes.
    pub fn insert_session(&mut self, id: Vec<u8>, user_id: i64, birth: u64) -> (r: Option<Session>)
        requires
            old(self)@.wf(),
        ensures
            final(self)@.wf(),
            ({
                let ok = id@.len() == 16 && has_user_id(old(self)@.users, user_id as int)
                    && session_with_id(old(self)@.sessions, id@) is None;
                if ok {
                    r matches Some(s) && s@ == (SessionV {
                        id: id@,
                        user_id: user_id as int,
                        birth,
                    }) && final(self)@ == (DbV {
                        sessions: old(self)@.sessions.push(s@),
                        ..old(self)@
                    })
                } else {
                    r is None && final(self)@ == old(self)@
                }
            }),
    {
        if id.len() != 16 {
            return None;
        }
        let owner = self.user_by_id(user_id);
        if owner.is_none() {
            proof {
                if has_user_id(self@.users, user_id as int) {
                    lemma_has_user_id_found(self@.users, user_id as int);
                }
            }
            return None;
        }
        match self.session_by_id(&id) {
            Some(_) => None,
            None => {
                let ghost oldv = self@;
                let ghost sv = SessionV { id: id@, user_id: user_id as int, birth };
                let row = Session { id, user_id, birth };
                proof {
                    assert(row@ == sv);
                }
                let copy = row.clone();
                self.sessions.push(row);
                proof {
                    assert(self@.sessions =~= oldv.sessions.push(sv));
                    assert(self@ =~= (DbV { sessions: oldv.sessions.push(sv), ..oldv }));
                    lemma_first_where_none_implies(oldv.sessions, |s: SessionV| s.id == sv.id);
                    assert(user_with_id(oldv.users, user_id as int) is Some);
                    assert(has_user_id(oldv.users, user_id as int)) by {
                        lemma_first_where_sound(oldv.users, |u: UserV| u.id == user_id as int);
                        let u = user_with_id(oldv.users, user_id as int).unwrap();
                        let k = choose|k: int| 0 <= k < oldv.users.len() && oldv.users[k] == u;
                        assert(oldv.users[k].id == user_id as int);
                    }
                }
                Some(copy)
            },
        }
    }

    /// Looks a basket row up by its owner's id and its name.
    pub fn basket_by(&self, user_id: i64, name: &str) -> (r: Option<BasketRecord>)
        ensures
            match r {
                Some(b) => basket_with(self@.baskets, user_id as int, name@) == Some(b@),
                None => basket_with(self@.baskets, user_id as int, name@) is None,
            },
    {
        let n = self.baskets.len();
        let mut i: usize = 0;
        while i < n
            invariant
                i <= n,
                n == self.baskets.len(),
                forall|j: int|
                    0 <= j < i ==> !((#[trigger] self@.baskets[j]).user_id == user_id as int
                        && self@.baskets[j].name == name@),
            decreases n - i,
        {
            if self.baskets[i].user_id == user_id && crate::collaborators::str_eq(
                self.baskets[i].name.as_str(),
                name,
            ) {
                proof {
                    lemma_first_where_found(
                        self@.baskets,
                        |b: BasketV| b.user_id == user_id as int && b.name == name@,
                        i as int,
                    );
                }
                return Some(self.baskets[i].clone());
            }
            i = i + 1;
        }
        proof {
            lemma_first_where_none(
                self@.baskets,
                |b: BasketV| b.user_id == user_id as int && b.name == name@,
            );
        }
        None
    }

    /// Persists a basket row under a fresh id. The row is added exactly
    /// when no basket of that owner carries the name yet — the uniqueness
    /// constraint on `(owner, name)` that serializes concurrent creation:
    /// of two identical insertions, the second observes `None`.
    pub fn create_basket_row(
        &mut self,
        user_id: i64,
        name: String,
        description: Option<String>,
        public: bool,
        kind: String,
    ) -> (r: Option<BasketRecord>)
        requires
            old(self)@.wf(),
            old(self)@.next_basket_id < i64::MAX,
            valid_name(name@),
            name@.len() > 0,
            has_user_id(old(self)@.users, user_id as int),
        ensures
            final(self)@.wf(),
            ({
                let ok = basket_with(old(self)@.baskets, user_id as int, name@) is None;
                if ok {
                    r matches Some(b) && b@ == (BasketV {
                        id: old(self)@.next_basket_id,
                        name: name@,
                        user_id: user_id as int,
                        description: crate::user::opt_view(description),
                        public,
                        kind: kind@,
                        forked_from: None,
                    }) && final(self)@ == (DbV {
                        baskets: old(self)@.baskets.push(b@),
                        next_basket_id: old(self)@.next_basket_id + 1,
                        ..old(self)@
                    })
                } else {
                    r is None && final(self)@ == old(self)@
                }
            }),
    {
        match self.basket_by(user_id, name.as_str()) {
            Some(_) => None,
            None => {
                let id = self.next_basket_id;
                let ghost oldv = self@;
                let ghost bv = BasketV {
                    id: id as int,
                    name: name@,
                    user_id: user_id as int,
                    description: crate::user::opt_view(description),
                    public,
                    kind: kind@,
                    forked_from: None,
                };
                let row = BasketRecord {
                    id,
                    name,
                    user_id,
                    description,
                    public,
                    kind,
                    forked_from: None,
                };
                proof {
                    assert(row@ == bv);
                }
                let out = row.clone();
                self.baskets.push(row);
                self.next_basket_id = id + 1;
                proof {
                    assert(self@.baskets =~= oldv.baskets.push(bv));
                    assert(self@ =~= (DbV {
                        baskets: oldv.baskets.push(bv),
                        next_basket_id: oldv.next_basket_id + 1,
                        ..oldv
                    }));
                    lemma_first_where_none_implies(
                        oldv.baskets,
                        |b: BasketV| b.user_id == user_id as int && b.name == name@,
                    );
                }
                Some(out)
            },
        }
    }

    /// Deletes the session row with the given id. Idempotent: deleting an
    /// absent row changes nothing.
    pub fn delete_session(&mut self, id: &Vec<u8>)
        requires
            old(self)@.wf(),
        ensures
            final(self)@.wf(),
            final(self)@ == (DbV {
                sessions: without_session(old(self)@.sessions, id@),
                ..old(self)@
            }),
    {
        let ghost oldv = self@;
        let n = self.sessions.len();
        let mut i: usize = 0;
        while i < n
            invariant
                i <= n,
                n == self.sessions.len(),
                self@ == oldv,
                oldv == old(self)@,
                oldv.wf(),
                forall|j: int| 0 <= j < i ==> (#[trigger] self@.sessions[j]).id != id@,
            decreases n - i,
        {
            if self.sessions[i].id == *id {
                proof {
                    assert(oldv.sessions[i as int].id =~= id@);
                    crate::search::lemma_remove_first_where_found(
                        oldv.sessions,
                        |s: SessionV| s.id == id@,
                        i as int,
                    );
                }
                let ghost old_raw = self.sessions@;
                self.sessions.remove(i);
                proof {
                    let iv = i as int;
                    let rem = oldv.sessions.remove(iv);
                    old_raw.remove_ensures(iv);
                    oldv.sessions.remove_ensures(iv);
                    assert forall|j: int| 0 <= j < rem.len() implies #[trigger] self@.sessions[j]
                        == rem[j] by {
                        assert(self.sessions@[j] == old_raw.remove(iv)[j]);
                        if j < iv {
                            assert(old_raw.remove(iv)[j] == old_raw[j]);
                            assert(rem[j] == oldv.sessions[j]);
                        } else {
                            assert(old_raw.remove(iv)[j] == old_raw[j + 1]);
                            assert(rem[j] == oldv.sessions[j + 1]);
                        }
                    }
                    assert(self@.sessions =~= rem);
                    assert(rem =~= oldv.sessions.subrange(0, iv) + oldv.sessions.skip(iv + 1));
                    assert(self@ =~= (DbV {
                        sessions: without_session(oldv.sessions, id@),
                        ..oldv
                    }));
                    oldv.sessions.remove_ensures(iv);
                    let newv = self@;
                    assert forall|a: int, b: int|
                        0 <= a < b < newv.sessions.len() implies (#[trigger] newv.sessions[a]).id
                        != (#[trigger] newv.sessions[b]).id by {
                        let a0: int = if a < iv {
                            a
                        } else {
                            a + 1
                        };
                        let b0: int = if b < iv {
                            b
                        } else {
                            b + 1
                        };
                        assert(rem[a] == oldv.sessions[a0]);
                        assert(rem[b] == oldv.sessions[b0]);
                        assert(0 <= a0 < b0 < oldv.sessions.len());
                        assert(oldv.wf());
                        assert(oldv.sessions[a0].id != oldv.sessions[b0].id);
                        assert(newv.sessions[a] == rem[a]);
                        assert(newv.sessions[b] == rem[b]);
                    }
                    assert forall|a: int|
                        0 <= a < newv.sessions.len() implies (#[trigger] newv.sessions[a]).id.len()
                        == 16 && has_user_id(newv.users, newv.sessions[a].user_id) by {
                        if a < iv {
                            assert(rem[a] == oldv.sessions[a]);
                        } else {
                            assert(rem[a] == oldv.sessions[a + 1]);
                        }
                    }
                }
                return ;
            }
            i = i + 1;
        }
        proof {
            crate::search::lemma_remove_first_where_none(oldv.sessions, |s: SessionV| s.id == id@);
            assert(self@ =~= (DbV { sessions: without_session(oldv.sessions, id@), ..oldv }));
        }
    }
}

} // verus!
