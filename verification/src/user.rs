//! Identities and their public view, login, and the session-bound
//! authenticated identity.

use vstd::prelude::*;
use crate::basket::is_name_char;
use crate::collaborators::{
    credential_matches, hex_decode, hex_encode, hex_of, hex_decoded, is_hex_seq,
    random_session_id, verify_credential,
};
use crate::db::{
    email_with_addr, has_user_id, lemma_has_user_id_found, session_with_id, user_with_id,
    user_with_name, without_session, Db, DbV,
};
use crate::search::lemma_first_where_sound;
use crate::session::{Session, SessionV};

verus! {

/// The charset rule for usernames: only ASCII alphanumeric characters and
/// hyphens, no leading hyphen. (Unlike basket names, no length bound.)
pub open spec fn valid_username(s: Seq<char>) -> bool {
    &&& forall|i: int| 0 <= i < s.len() ==> is_name_char(#[trigger] s[i])
    &&& s.len() > 0 ==> s[0] != '-'
}

/// Decides the username charset rule.
pub fn is_valid_username(s: &str) -> (r: bool)
    ensures
        r == valid_username(s@),
{
    let n = s.unicode_len();
    let mut i: usize = 0;
    while i < n
        invariant
            i <= n,
            n == s@.len(),
            forall|j: int| 0 <= j < i ==> is_name_char(#[trigger] s@[j]),
            i > 0 ==> s@[0] != '-',
        decreases n - i,
    {
        let c = s.get_char(i);
        let u = c as u32;
        let ok = (97 <= u && u <= 122) || (65 <= u && u <= 90) || (48 <= u && u <= 57)
            || u == 45;
        if !ok {
            return false;
        }
        if i == 0 && u == 45 {
            return false;
        }
        i = i + 1;
    }
    true
}

/// Whether a login identifier is an email address: usernames cannot
/// contain '@', so its presence decides the lookup route.
pub open spec fn is_email_identifier(s: Seq<char>) -> bool {
    exists|i: int| 0 <= i < s.len() && s[i] == '@'
}

/// Decides whether the identifier contains '@'.
pub fn contains_at(s: &str) -> (r: bool)
    ensures
        r == is_email_identifier(s@),
{
    let n = s.unicode_len();
    let mut i: usize = 0;
    while i < n
        invariant
            i <= n,
            n == s@.len(),
            forall|j: int| 0 <= j < i ==> s@[j] != '@',
        decreases n - i,
    {
        if s.get_char(i) == '@' {
            return true;
        }
        i = i + 1;
    }
    false
}

/// Specification view of a stored identity.
pub struct UserV {
    pub id: int,
    pub username: Seq<char>,
    pub name: Option<Seq<char>>,
    pub password: Option<Seq<char>>,
    pub bio: Option<Seq<char>>,
}

/// The view of an optional string.
pub open spec fn opt_view(o: Option<String>) -> Option<Seq<char>> {
    match o {
        Some(s) => Some(s@),
        None => None,
    }
}

/// Clones an optional string, preserving its view.
pub fn clone_opt_string(o: &Option<String>) -> (r: Option<String>)
    ensures
        opt_view(r) == opt_view(*o),
{
    match o {
        Some(s) => Some(s.clone()),
        None => None,
    }
}

/// A stored identity. The username may only contain ASCII alphanumeric
/// characters and hyphens and cannot start with a hyphen. A missing
/// credential marks an account that cannot authenticate by password.
pub struct User {
    pub id: i64,
    pub username: String,
    pub name: Option<String>,
    pub password: Option<String>,
    pub bio: Option<String>,
}

impl View for User {
    type V = UserV;

    open spec fn view(&self) -> UserV {
        UserV {
            id: self.id as int,
            username: self.username@,
            name: opt_view(self.name),
            password: opt_view(self.password),
            bio: opt_view(self.bio),
        }
    }
}

impl Clone for User {
    fn clone(&self) -> (r: Self)
        ensures
            r@ == self@,
    {
        User {
            id: self.id,
            username: self.username.clone(),
            name: clone_opt_string(&self.name),
            password: clone_opt_string(&self.password),
            bio: clone_opt_string(&self.bio),
        }
    }
}

/// Whether `b` belongs to `owner` and `actor` may view it: the predicate
/// the basket listing filters with.
pub open spec fn owned_viewable(
    owner: UserV,
    actor: Option<UserV>,
    b: crate::basket::BasketV,
) -> bool {
    b.user_id == owner.id && crate::permissions::spec_has_permission(
        actor,
        crate::permissions::ActionV::ViewBasket { owner, basket: b },
    )
}

/// A public view of an identity: exposes only what everyone may see.
pub struct PubUser(pub User);

impl View for PubUser {
    type V = UserV;

    open spec fn view(&self) -> UserV {
        self.0@
    }
}

impl Clone for PubUser {
    fn clone(&self) -> (r: Self)
        ensures
            r@ == self@,
    {
        PubUser(self.0.clone())
    }
}

impl PubUser {
    /// Wraps a full identity.
    pub fn from_user(user: User) -> (r: Self)
        ensures
            r@ == user@,
    {
        PubUser(user)
    }

    /// The opaque numeric id.
    pub fn id(&self) -> (r: i64)
        ensures
            r as int == self@.id,
    {
        self.0.id
    }

    /// The unique username.
    pub fn username(&self) -> (r: &str)
        ensures
            r@ == self@.username,
    {
        self.0.username.as_str()
    }

    /// The display name, if one is set.
    pub fn name(&self) -> (r: Option<&str>)
        ensures
            match r {
                Some(s) => self@.name == Some(s@),
                None => self@.name is None,
            },
    {
        match &self.0.name {
            Some(s) => Some(s.as_str()),
            None => None,
        }
    }

    /// Looks the identity of a username up, rejecting malformed usernames
    /// before touching the store.
    pub fn from_username(username: &str, db: &Db) -> (r: Option<Self>)
        ensures
            match r {
                Some(p) => valid_username(username@) && user_with_name(db@.users, username@)
                    == Some(p@),
                None => !valid_username(username@) || user_with_name(
                    db@.users,
                    username@,
                ) is None,
            },
    {
        if !is_valid_username(username) {
            return None;
        }
        match db.user_by_username(username) {
            Some(u) => Some(PubUser(u)),
            None => None,
        }
    }

    /// The baskets this identity owns, filtered down to those the acting
    /// identity may view, in storage order.
    pub fn baskets(&self, auth_user: Option<&AuthUser>, db: &Db) -> (r: Vec<crate::basket::Basket>)
        ensures
            r@.map_values(|b: crate::basket::Basket| b.record@) == db@.baskets.filter(
                |b: crate::basket::BasketV| owned_viewable(
                    self@,
                    crate::permissions::actor_view(auth_user),
                    b,
                ),
            ),
            forall|i: int| 0 <= i < r@.len() ==> (#[trigger] r@[i]).user@ == self@,
    {
        let mut out: Vec<crate::basket::Basket> = Vec::new();
        let n = db.baskets.len();
        let mut i: usize = 0;
        proof {
            reveal(Seq::filter);
            assert(out@.map_values(|b: crate::basket::Basket| b.record@) =~= db@.baskets.take(
                0,
            ).filter(
                |b: crate::basket::BasketV| owned_viewable(
                    self@,
                    crate::permissions::actor_view(auth_user),
                    b,
                ),
            ));
        }
        while i < n
            invariant
                i <= n,
                n == db.baskets.len(),
                out@.map_values(|b: crate::basket::Basket| b.record@) == db@.baskets.take(
                    i as int,
                ).filter(
                    |b: crate::basket::BasketV| owned_viewable(
                        self@,
                        crate::permissions::actor_view(auth_user),
                        b,
                    ),
                ),
                forall|k: int| 0 <= k < out@.len() ==> (#[trigger] out@[k]).user@ == self@,
            decreases n - i,
        {
            let record = &db.baskets[i];
            let keep = if record.user_id == self.id() {
                let action = crate::permissions::UserAction::ViewBasket {
                    owner: self.clone(),
                    basket: record.clone(),
                };
                crate::permissions::has_permission(auth_user, &action)
            } else {
                false
            };
            proof {
                reveal(Seq::filter);
                assert(keep == owned_viewable(
                    self@,
                    crate::permissions::actor_view(auth_user),
                    db@.baskets[i as int],
                ));
                let t = db@.baskets.take(i as int + 1);
                assert(t.len() == i as int + 1);
                assert(t.drop_last() =~= db@.baskets.take(i as int));
                assert(t.last() == db@.baskets[i as int]);
                assert(t.filter(
                    |b: crate::basket::BasketV| owned_viewable(
                        self@,
                        crate::permissions::actor_view(auth_user),
                        b,
                    ),
                ) == if keep {
                    db@.baskets.take(i as int).filter(
                        |b: crate::basket::BasketV| owned_viewable(
                            self@,
                            crate::permissions::actor_view(auth_user),
                            b,
                        ),
                    ).push(t.last())
                } else {
                    db@.baskets.take(i as int).filter(
                        |b: crate::basket::BasketV| owned_viewable(
                            self@,
                            crate::permissions::actor_view(auth_user),
                            b,
                        ),
                    )
                });
            }
            let ghost pre = out@;
            if keep {
                out.push(
                    crate::basket::Basket { record: record.clone(), user: self.clone() },
                );
                proof {
                    assert forall|k: int|
                        0 <= k < out@.len() implies (#[trigger] out@[k]).record@ == db@.baskets.take(
                        i as int + 1,
                    ).filter(
                        |b: crate::basket::BasketV| owned_viewable(
                            self@,
                            crate::permissions::actor_view(auth_user),
                            b,
                        ),
                    )[k] by {
                        if k < pre.len() {
                            assert(out@[k] == pre[k]);
                            assert(pre.map_values(|b: crate::basket::Basket| b.record@)[k]
                                == pre[k].record@);
                        }
                    }
                    assert(out@.map_values(|b: crate::basket::Basket| b.record@)
                        =~= db@.baskets.take(i as int + 1).filter(
                        |b: crate::basket::BasketV| owned_viewable(
                            self@,
                            crate::permissions::actor_view(auth_user),
                            b,
                        ),
                    ));
                }
            } else {
                proof {
                    assert(out@.map_values(|b: crate::basket::Basket| b.record@)
                        =~= db@.baskets.take(i as int + 1).filter(
                        |b: crate::basket::BasketV| owned_viewable(
                            self@,
                            crate::permissions::actor_view(auth_user),
                            b,
                        ),
                    ));
                }
            }
            i = i + 1;
        }
        proof {
            assert(db@.baskets.take(n as int) =~= db@.baskets);
        }
        out
    }

    /// The biography, if one is set.
    pub fn bio(&self) -> (r: Option<&str>)
        ensures
            match r {
                Some(s) => self@.bio == Some(s@),
                None => self@.bio is None,
            },
    {
        match &self.0.bio {
            Some(s) => Some(s.as_str()),
            None => None,
        }
    }
}

/// Specification view of an email row.
pub struct EmailV {
    pub email: Seq<char>,
    pub user_id: int,
}

/// An email address bound to an identity; the address is the key.
pub struct UserEmail {
    pub email: String,
    pub user_id: i64,
}

impl View for UserEmail {
    type V = EmailV;

    open spec fn view(&self) -> EmailV {
        EmailV { email: self.email@, user_id: self.user_id as int }
    }
}

/// An authenticated identity, optionally carrying the session it was
/// resolved from.
pub struct AuthUser {
    pub user: PubUser,
    pub session: Option<Session>,
}

/// The identity a login identifier denotes: an address lookup when the
/// identifier contains '@' (usernames cannot), a username lookup when it
/// obeys the username charset rule, and nothing otherwise.
pub open spec fn spec_login_lookup(db: DbV, id: Seq<char>) -> Option<UserV> {
    if is_email_identifier(id) {
        match email_with_addr(db.emails, id) {
            Some(e) => user_with_id(db.users, e.user_id),
            None => None,
        }
    } else if valid_username(id) {
        user_with_name(db.users, id)
    } else {
        None
    }
}

/// What a login attempt returns: the identity when the credential
/// verifies; `UserNotFound` when the identifier denotes nobody;
/// `NoPasswordSet` when the identity has no stored credential;
/// `PasswordIncorrect` when verification fails.
pub open spec fn spec_login(db: DbV, id: Seq<char>, password: Seq<char>) -> Result<
    UserV,
    LoginError,
> {
    match spec_login_lookup(db, id) {
        None => Err(LoginError::UserNotFound),
        Some(u) => match u.password {
            None => Err(LoginError::NoPasswordSet),
            Some(h) => if credential_matches(password, h) {
                Ok(u)
            } else {
                Err(LoginError::PasswordIncorrect)
            },
        },
    }
}

/// What a bearer token resolves to: the session stored under the decoded
/// sixteen bytes, joined to its owner. A token that is not well-formed
/// hexadecimal of the right width, or matches no session, resolves to
/// nothing — anonymity, not an error.
pub open spec fn spec_resolve(db: DbV, token: Seq<char>) -> Option<(UserV, SessionV)> {
    if is_hex_seq(token) && hex_decoded(token).len() == 16 {
        match session_with_id(db.sessions, hex_decoded(token)) {
            Some(s) => match user_with_id(db.users, s.user_id) {
                Some(u) => Some((u, s)),
                None => None,
            },
            None => None,
        }
    } else {
        None
    }
}

/// An identity a login returned is a stored row, so a session can be
/// established for it: its id resolves in the store the login consulted.
pub proof fn lemma_login_user_is_stored(db: DbV, id: Seq<char>, password: Seq<char>)
    requires
        spec_login(db, id, password) is Ok,
    ensures
        has_user_id(db.users, spec_login(db, id, password).unwrap().id),
{
    let u = spec_login(db, id, password).unwrap();
    if is_email_identifier(id) {
        let e = email_with_addr(db.emails, id).unwrap();
        lemma_first_where_sound(db.users, |x: UserV| x.id == e.user_id);
    } else {
        lemma_first_where_sound(db.users, |x: UserV| x.username == id);
    }
    let k = choose|k: int| 0 <= k < db.users.len() && db.users[k] == u;
    assert(db.users[k].id == u.id);
}

/// Round trip of a session through the store: once a session with a fresh
/// sixteen-byte id is persisted for a stored identity, resolving its
/// hexadecimal token returns exactly that identity and that session; and
/// after the session is deleted again, the same token resolves to nothing.
pub proof fn lemma_session_round_trip(db: DbV, u: UserV, sid: Seq<u8>, birth: u64)
    requires
        db.wf(),
        user_with_id(db.users, u.id) == Some(u),
        sid.len() == 16,
        session_with_id(db.sessions, sid) is None,
    ensures
        ({
            let sv = SessionV { id: sid, user_id: u.id, birth };
            let with = DbV { sessions: db.sessions.push(sv), ..db };
            let without = DbV { sessions: without_session(with.sessions, sid), ..with };
            &&& spec_resolve(with, hex_of(sid)) == Some((u, sv))
            &&& spec_resolve(without, hex_of(sid)) is None
        }),
{
    let sv = SessionV { id: sid, user_id: u.id, birth };
    let with = DbV { sessions: db.sessions.push(sv), ..db };
    let p = |x: SessionV| x.id == sid;
    crate::collaborators::lemma_hex_round_trip(sid);
    crate::search::lemma_first_where_none_implies(db.sessions, p);
    let pushed = db.sessions.push(sv);
    assert(pushed[db.sessions.len() as int] == sv);
    assert forall|j: int| 0 <= j < db.sessions.len() implies !p(#[trigger] pushed[j]) by {
        assert(pushed[j] == db.sessions[j]);
    }
    crate::search::lemma_first_where_found(pushed, p, db.sessions.len() as int);
    assert(session_with_id(with.sessions, sid) == Some(sv));
    assert(spec_resolve(with, hex_of(sid)) == Some((u, sv)));
    assert forall|j: int, k: int|
        0 <= j < k < pushed.len() implies !((#[trigger] p(pushed[j])) && (#[trigger] p(
        pushed[k]))) by {
        if j < db.sessions.len() {
            assert(pushed[j] == db.sessions[j]);
        }
    }
    crate::search::lemma_first_where_after_remove(pushed, p);
}

impl AuthUser {
    /// Authenticates by identifier (username or email) and password.
    /// Delegates credential verification to the password-hashing
    /// collaborator; on success the caller still has to establish a
    /// session explicitly.
    pub fn login(id: &str, password: &str, db: &Db) -> (r: Result<AuthUser, LoginError>)
        requires
            db@.wf(),
        ensures
            match r {
                Ok(au) => spec_login(db@, id@, password@) == Ok::<UserV, LoginError>(au.user@)
                    && au.session is None,
                Err(e) => spec_login(db@, id@, password@) == Err::<UserV, LoginError>(e),
            },
    {
        let found: Option<User> = if contains_at(id) {
            db.user_by_email(id)
        } else if is_valid_username(id) {
            db.user_by_username(id)
        } else {
            None
        };
        match found {
            None => Err(LoginError::UserNotFound),
            Some(user) => {
                match &user.password {
                    None => Err(LoginError::NoPasswordSet),
                    Some(hash) => {
                        if verify_credential(password, hash.as_str()) {
                            Ok(AuthUser { user: PubUser(user), session: None })
                        } else {
                            Err(LoginError::PasswordIncorrect)
                        }
                    },
                }
            },
        }
    }

    /// Establishes a session for this identity: draws sixteen bytes from
    /// the secure random source, persists the row born at `now`, and
    /// returns the token (the id in lowercase hexadecimal) for the
    /// transport boundary. Returns `None` — leaving everything unchanged —
    /// only if the freshly drawn id already names a session.
    pub fn create_session(&mut self, db: &mut Db, now: u64) -> (r: Option<String>)
        requires
            old(db)@.wf(),
            has_user_id(old(db)@.users, old(self).user@.id),
        ensures
            final(db)@.wf(),
            final(self).user@ == old(self).user@,
            match r {
                Some(tok) => {
                    &&& final(self).session matches Some(s) && s@ == (SessionV {
                        id: hex_decoded(tok@),
                        user_id: old(self).user@.id,
                        birth: now,
                    })
                    &&& session_with_id(old(db)@.sessions, hex_decoded(tok@)) is None
                    &&& final(db)@ == (DbV {
                        sessions: old(db)@.sessions.push(
                            SessionV {
                                id: hex_decoded(tok@),
                                user_id: old(self).user@.id,
                                birth: now,
                            },
                        ),
                        ..old(db)@
                    })
                    &&& tok@ == hex_of(hex_decoded(tok@))
                    &&& hex_decoded(tok@).len() == 16
                    &&& is_hex_seq(tok@)
                },
                None => final(db)@ == old(db)@ && final(self).session == old(self).session,
            },
    {
        let id = random_session_id();
        let ghost idv = id@;
        match db.insert_session(id, self.user.id(), now) {
            Some(s) => {
                let tok = hex_encode(&s.id);
                proof {
                    crate::collaborators::lemma_hex_round_trip(idv);
                }
                self.session = Some(s);
                Some(tok)
            },
            None => None,
        }
    }

    /// Resolves a bearer token to the identity and session it names.
    /// Absent, malformed or wrongly sized tokens resolve to `None` —
    /// the caller must treat that as anonymous, never as an error.
    pub fn resolve(token: &str, db: &Db) -> (r: Option<AuthUser>)
        requires
            db@.wf(),
        ensures
            match r {
                Some(au) => spec_resolve(db@, token@) matches Some(p) && au.user@ == p.0 && (
                au.session matches Some(s) && s@ == p.1),
                None => spec_resolve(db@, token@) is None,
            },
    {
        match hex_decode(token) {
            None => None,
            Some(id) => {
                if id.len() != 16 {
                    return None;
                }
                match db.session_by_id(&id) {
                    None => None,
                    Some(s) => {
                        proof {
                            lemma_first_where_sound(
                                db@.sessions,
                                |x: SessionV| x.id == id@,
                            );
                            let k = choose|k: int|
                                0 <= k < db@.sessions.len() && db@.sessions[k] == s@;
                            assert(has_user_id(db@.users, db@.sessions[k].user_id));
                            lemma_has_user_id_found(db@.users, s@.user_id);
                        }
                        match db.user_by_id(s.user_id) {
                            Some(user) => Some(
                                AuthUser { user: PubUser(user), session: Some(s) },
                            ),
                            None => {
                                proof {
                                    assert(false);
                                }
                                None
                            },
                        }
                    },
                }
            },
        }
    }

    /// Ends this login session: deletes the session row, if one is bound.
    /// Idempotent — ending an already-ended session changes nothing.
    pub fn end_session(&self, db: &mut Db)
        requires
            old(db)@.wf(),
        ensures
            final(db)@.wf(),
            match self.session {
                Some(s) => final(db)@ == (DbV {
                    sessions: without_session(old(db)@.sessions, s@.id),
                    ..old(db)@
                }),
                None => final(db)@ == old(db)@,
            },
    {
        match &self.session {
            Some(s) => db.delete_session(&s.id),
            None => (),
        }
    }

    /// The public identity underneath.
    pub fn pub_user(&self) -> (r: &PubUser)
        ensures
            r@ == self.user@,
    {
        &self.user
    }

    /// Gives up the session binding, leaving only the public identity.
    pub fn into_pub_user(self) -> (r: PubUser)
        ensures
            r@ == self.user@,
    {
        self.user
    }

    /// The username of the authenticated identity.
    pub fn username(&self) -> (r: &str)
        ensures
            r@ == self.user@.username,
    {
        self.user.username()
    }
}

/// Why a login attempt failed.
#[derive(Clone, Copy, PartialEq, Eq, Structural, Debug)]
pub enum LoginError {
    /// No identity matches the given identifier (email or username).
    UserNotFound,
    /// An identity was found, but the given password does not verify.
    PasswordIncorrect,
    /// The identity has no stored credential and can only authenticate by
    /// other means.
    NoPasswordSet,
}

impl LoginError {
    /// The fixed user-facing description of each failure.
    pub fn description(&self) -> (r: &'static str)
        ensures
            match self {
                LoginError::UserNotFound => r@ == "Username/email address not found."@,
                LoginError::PasswordIncorrect => r@ == "Incorrect password."@,
                LoginError::NoPasswordSet => r@
                    == "This user cannot be authenticated via password. Please choose another authentication method."@,
            },
    {
        match self {
            LoginError::UserNotFound => "Username/email address not found.",
            LoginError::PasswordIncorrect => "Incorrect password.",
            LoginError::NoPasswordSet => "This user cannot be authenticated via password. Please choose another authentication method.",
        }
    }
}

} // verus!
