//! Saves and restores the states of agents.

use crate::node::thinker::AgentState;
use crate::persistence::session;
use crate::persistence::storage::{StorageBackend, StorageFault};
use crate::text::{model, ops};
use vstd::prelude::*;
use vstd::string::*;

verus! {

/// Where an agent's loop stands.
#[derive(Debug)]
pub struct LoopStateSnapshot {
    pub state: AgentState,
    pub turn_count: u32,
    pub tokens_used: u64,
    pub consecutive_failures: u32,
    pub elapsed_secs: u64,
    /// Why the loop has ended, in JSON notation.
    pub done_reason: Option<String>,
    /// Where the goal stands, in JSON notation.
    pub goal: Option<String>,
}

/// Saves and restores the state of an agent.
#[derive(Debug)]
pub struct StatePersister<B: StorageBackend> {
    /// Where the state is kept.
    pub backend: B,
    /// Names the agent.
    pub agent_id: String,
}

/// The key of an agent's state.
pub open spec fn state_key(agent_id: Seq<char>) -> Seq<char> {
    "state/"@ + agent_id
}

impl<B: StorageBackend> StatePersister<B> {
    /// Saves and restores the state of an agent.
    pub fn new(backend: B, agent_id: String) -> (r: Self)
        ensures
            r.backend == backend,
            r.agent_id@ == agent_id@,
    {
        StatePersister { backend, agent_id }
    }

    /// The key of the agent's state.
    pub fn key(&self) -> (r: String)
        ensures
            r@ == state_key(self.agent_id@),
    {
        ops::concat2("state/", self.agent_id.as_str())
    }

    /// Saves a snapshot, which is given as bytes.
    pub fn save_state(&mut self, snapshot: &Vec<u8>) -> (r: Result<(), StorageFault>)
        requires
            old(self).backend.is_sound(),
        ensures
            final(self).backend.is_sound(),
            final(self).agent_id@ == old(self).agent_id@,
            r is Ok ==> final(self).backend.held() == old(self).backend.held().insert(
                state_key(old(self).agent_id@),
                snapshot@,
            ),
    {
        let key = self.key();
        self.backend.save(key.as_str(), snapshot)
    }

    /// The snapshot as it was saved, if it was.
    pub fn load_state(&self) -> (r: Result<Option<Vec<u8>>, StorageFault>)
        requires
            self.backend.is_sound(),
        ensures
            match r {
                Ok(Some(data)) => self.backend.held().contains_key(state_key(self.agent_id@))
                    && data@ == self.backend.held()[state_key(self.agent_id@)],
                Ok(None) => !self.backend.held().contains_key(state_key(self.agent_id@)),
                Err(_) => true,
            },
    {
        let key = self.key();
        self.backend.load(key.as_str())
    }
}

/// A session and a state are never kept under the same key.
pub proof fn law_sessions_and_states_are_apart(session_id: Seq<char>, agent_id: Seq<char>)
    ensures
        session::session_key(session_id) != state_key(agent_id),
{
    reveal_strlit("session/");
    reveal_strlit("state/");
    assert(session::session_key(session_id)[1] == 'e');
    assert(state_key(agent_id)[1] == 't');
}

/// The state of an agent is kept under the agent's own name, among the states.
pub proof fn law_state_is_kept_under_its_name(agent_id: Seq<char>)
    ensures
        model::starts_with(state_key(agent_id), "state/"@),
        model::ends_with(state_key(agent_id), agent_id),
        state_key(agent_id).len() == "state/"@.len() + agent_id.len(),
{
    let k = state_key(agent_id);
    assert(k.take("state/"@.len() as int) =~= "state/"@);
    assert(k.skip(k.len() - agent_id.len()) =~= agent_id);
}

} // verus!
