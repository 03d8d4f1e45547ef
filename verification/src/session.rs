//! Session records: a server-side row binding an opaque bearer token (a
//! sixteen-byte random id) to an identity.

use vstd::prelude::*;

verus! {

/// Length of a session id in bytes: 128 bits of entropy.
pub const SESSION_ID_LEN: usize = 16;

/// Specification view of a session record.
pub struct SessionV {
    pub id: Seq<u8>,
    pub user_id: int,
    pub birth: u64,
}

/// A session row about to be persisted: the freshly drawn id and the
/// identity it belongs to.
pub struct NewSession {
    pub id: Vec<u8>,
    pub user_id: i64,
}

/// A persisted session row. Never mutated: created on login, deleted on
/// logout.
pub struct Session {
    pub id: Vec<u8>,
    pub user_id: i64,
    pub birth: u64,
}

impl View for Session {
    type V = SessionV;

    open spec fn view(&self) -> SessionV {
        SessionV { id: self.id@, user_id: self.user_id as int, birth: self.birth }
    }
}

impl Session {
    /// Well-formed: the id has the fixed length.
    pub open spec fn wf(self) -> bool {
        self.id@.len() == 16
    }
}

impl Clone for Session {
    fn clone(&self) -> (r: Self)
        ensures
            r@ == self@,
    {
        Session { id: self.id.clone(), user_id: self.user_id, birth: self.birth }
    }
}

} // verus!
