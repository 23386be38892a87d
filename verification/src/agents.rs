//! The agent store: the authoritative table of per-agent kinematic state
//! (position, velocity, steering target), keyed by dense agent id. The
//! spatial grid holds only identifiers; all state lives here.

use vstd::prelude::*;
use crate::vec3::Vec3;
use crate::{SCALE, COORD_LIMIT};

verus! {

/// One agent's kinematic state. The velocity and target are unit-length
/// headings in fixed-point scale; the speed constant is applied at
/// integration time, not stored here.
#[derive(Clone, Copy, PartialEq, Eq, Structural, Debug)]
pub struct Agent {
    /// World-space position, in fixed-point coordinates.
    pub position: Vec3,
    /// Current heading (unit length, `SCALE` scale).
    pub velocity: Vec3,
    /// Desired heading the velocity is blended toward each tick.
    pub target_velocity: Vec3,
    /// Whether the steering pass changed `target_velocity` this tick; only
    /// such agents get a velocity blend at integration.
    pub target_changed: bool,
}

/// The coordinates of an agent stay inside the machine range: the position
/// within the coordinate limit, the two headings within unit scale.
pub open spec fn agent_wf(a: Agent) -> bool {
    &&& a.position@.bounded(COORD_LIMIT as int)
    &&& a.velocity@.bounded(SCALE as int)
    &&& a.target_velocity@.bounded(SCALE as int)
}

/// The table of live agents, keyed by dense id (the index).
pub struct AgentStore {
    agents: Vec<Agent>,
}

impl View for AgentStore {
    type V = Seq<Agent>;

    closed spec fn view(&self) -> Seq<Agent> {
        self.agents@
    }
}

impl AgentStore {
    /// An empty store.
    pub fn new() -> (r: AgentStore)
        ensures
            r@.len() == 0,
    {
        AgentStore { agents: Vec::new() }
    }

    /// Number of live agents.
    pub fn len(&self) -> (r: usize)
        ensures
            r == self@.len(),
    {
        self.agents.len()
    }

    /// The agent with the given id, if it exists.
    pub fn get(&self, id: usize) -> (r: Option<Agent>)
        ensures
            match r {
                Some(a) => id < self@.len() && a == self@[id as int],
                None => id >= self@.len(),
            },
    {
        if id < self.agents.len() {
            Some(self.agents[id])
        } else {
            None
        }
    }

    /// Appends a new agent; its id is the previous length.
    pub fn push_agent(&mut self, a: Agent)
        ensures
            final(self)@ == old(self)@.push(a),
    {
        self.agents.push(a);
    }

    /// Overwrites the state of an existing agent.
    pub fn set_agent(&mut self, id: usize, a: Agent)
        requires
            id < old(self)@.len(),
        ensures
            final(self)@ == old(self)@.update(id as int, a),
    {
        self.agents[id] = a;
    }
}


impl AgentStore {
    /// The position of the agent `id`.
    pub fn position(&self, id: usize) -> (r: Option<Vec3>)
        ensures
            match r {
                Some(p) => id < self@.len() && p == self@[id as int].position,
                None => id >= self@.len(),
            },
    {
        match self.get(id) {
            Some(a) => Some(a.position),
            None => None,
        }
    }

    /// The velocity of the agent `id`.
    pub fn velocity(&self, id: usize) -> (r: Option<Vec3>)
        ensures
            match r {
                Some(v) => id < self@.len() && v == self@[id as int].velocity,
                None => id >= self@.len(),
            },
    {
        match self.get(id) {
            Some(a) => Some(a.velocity),
            None => None,
        }
    }

    /// The steering target of the agent `id`.
    pub fn target_velocity(&self, id: usize) -> (r: Option<Vec3>)
        ensures
            match r {
                Some(t) => id < self@.len() && t == self@[id as int].target_velocity,
                None => id >= self@.len(),
            },
    {
        match self.get(id) {
            Some(a) => Some(a.target_velocity),
            None => None,
        }
    }

    /// Overwrites the steering target of an existing agent, recording
    /// whether it changed.
    pub fn set_target_velocity(&mut self, id: usize, target: Vec3, changed: bool)
        requires
            id < old(self)@.len(),
        ensures
            final(self)@ == old(self)@.update(
                id as int,
                (Agent {
                    position: old(self)@[id as int].position,
                    velocity: old(self)@[id as int].velocity,
                    target_velocity: target,
                    target_changed: changed,
                }),
            ),
    {
        let a = self.agents[id];
        self.agents[id] = Agent {
            position: a.position,
            velocity: a.velocity,
            target_velocity: target,
            target_changed: changed,
        };
    }
}

} // verus!
