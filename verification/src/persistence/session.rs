//! Saves and restores sessions.

use crate::persistence::storage::{StorageBackend, StorageFault};
use crate::text::{model, ops};
use vstd::prelude::*;
use vstd::string::*;

verus! {

/// What is told of a saved session.
#[derive(Debug)]
pub struct SessionPersistMeta {
    pub session_id: String,
    /// The moments, in the notation of RFC 3339.
    pub created_at: String,
    pub updated_at: String,
    pub turn_count: u32,
    pub token_count: u64,
}

/// Saves and restores a session.
#[derive(Debug)]
pub struct SessionPersister<B: StorageBackend> {
    /// Where the session is kept.
    pub backend: B,
    /// Names the session.
    pub session_id: String,
}

/// The key of a session.
pub open spec fn session_key(session_id: Seq<char>) -> Seq<char> {
    "session/"@ + session_id
}

impl<B: StorageBackend> SessionPersister<B> {
    /// Saves and restores a session.
    pub fn new(backend: B, session_id: String) -> (r: Self)
        ensures
            r.backend == backend,
            r.session_id@ == session_id@,
    {
        SessionPersister { backend, session_id }
    }

    /// The key of the session.
    pub fn key(&self) -> (r: String)
        ensures
            r@ == session_key(self.session_id@),
    {
        ops::concat2("session/", self.session_id.as_str())
    }

    /// Saves the session.
    pub fn save_session(&mut self, conversation: &Vec<u8>) -> (r: Result<(), StorageFault>)
        requires
            old(self).backend.is_sound(),
        ensures
            final(self).backend.is_sound(),
            final(self).session_id@ == old(self).session_id@,
            r is Ok ==> final(self).backend.held() == old(self).backend.held().insert(
                session_key(old(self).session_id@),
                conversation@,
            ),
    {
        let key = self.key();
        self.backend.save(key.as_str(), conversation)
    }

    /// The session as it was saved, if it was.
    pub fn load_session(&self) -> (r: Result<Option<Vec<u8>>, StorageFault>)
        requires
            self.backend.is_sound(),
        ensures
            match r {
                Ok(Some(data)) => self.backend.held().contains_key(session_key(self.session_id@))
                    && data@ == self.backend.held()[session_key(self.session_id@)],
                Ok(None) => !self.backend.held().contains_key(session_key(self.session_id@)),
                Err(_) => true,
            },
    {
        let key = self.key();
        self.backend.load(key.as_str())
    }
}

/// What was saved of a session is what is loaded of it, and saving one session
/// leaves the others as they are.
pub proof fn law_session_is_read_back(
    before: Map<Seq<char>, Seq<u8>>,
    session: Seq<char>,
    data: Seq<u8>,
    other: Seq<char>,
)
    ensures
        before.insert(session_key(session), data).contains_key(session_key(session)),
        before.insert(session_key(session), data)[session_key(session)] == data,
        other != session ==> before.insert(session_key(session), data).contains_key(
            session_key(other),
        ) == before.contains_key(session_key(other)),
        other != session ==> before.insert(session_key(session), data)[session_key(other)]
            == before[session_key(other)],
{
    if session_key(session) == session_key(other) {
        let n = "session/"@.len() as int;
        assert(session =~= session_key(session).skip(n));
        assert(other =~= session_key(other).skip(n));
    }
}

/// A session is kept under its own name, among the sessions.
pub proof fn law_session_is_kept_under_its_name(session_id: Seq<char>)
    ensures
        model::starts_with(session_key(session_id), "session/"@),
        model::ends_with(session_key(session_id), session_id),
        session_key(session_id).len() == "session/"@.len() + session_id.len(),
{
    let k = session_key(session_id);
    assert(k.take("session/"@.len() as int) =~= "session/"@);
    assert(k.skip(k.len() - session_id.len()) =~= session_id);
}

} // verus!
