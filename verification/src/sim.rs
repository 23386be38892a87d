//! The simulation: owns the agent store and the spatial grid and drives the
//! per-tick pipeline (steering, then integration with relocation). Its
//! invariant ties the two together: every live agent is registered in exactly
//! the grid cell its current position maps to, exactly once, and the total of
//! all membership lists equals the live population.

use vstd::prelude::*;
use crate::agents::{Agent, AgentStore, agent_wf};
use crate::errors::{ConfigurationError, SpatialIndexError};
use crate::grid::{SpatialGrid, GridView, CellKey, bounds_valid, bounds_bounded, same_shape,
    first_idx, lemma_first_idx, lemma_flat_in_range, lemma_flat_injective, lemma_key_of_in_range,
    MAX_DIM};
use crate::motion::{vel_spec, move_spec, blend_velocity, advance_position};
use crate::steering::{steer_spec, steer_target};
use crate::vec3::{Vec3, SpecVec3, VEC_LIMIT};
use crate::{SCALE, COORD_LIMIT};

verus! {

/// The recognized configuration options.
#[derive(Clone, Copy, PartialEq, Eq, Structural, Debug)]
pub struct SimConfig {
    /// Minimum corner of the world bounds.
    pub bounds_min: Vec3,
    /// Maximum corner of the world bounds.
    pub bounds_max: Vec3,
    /// Grid cell counts along each axis.
    pub nx: i64,
    /// Grid cell counts along each axis.
    pub ny: i64,
    /// Grid cell counts along each axis.
    pub nz: i64,
    /// Number of agents a flock spawn produces.
    pub population: u32,
    /// Global speed constant applied at integration time (fixed-point).
    pub speed: i64,
    /// Blend rate of velocity toward target per unit time (fixed-point).
    pub steering_rate: i64,
    /// Separation radius: neighbors closer than this repel (fixed-point).
    pub separation_tolerance: i64,
}

/// The configuration values lie within the fixed-point machine range.
pub open spec fn config_in_machine_range(c: SimConfig) -> bool {
    &&& bounds_bounded(c.bounds_min@, c.bounds_max@)
    &&& c.nx <= MAX_DIM
    &&& c.ny <= MAX_DIM
    &&& c.nz <= MAX_DIM
    &&& 0 <= c.speed <= COORD_LIMIT
    &&& 0 <= c.steering_rate <= COORD_LIMIT
    &&& 0 <= c.separation_tolerance <= COORD_LIMIT
}

/// All elements of a membership list are distinct.
pub open spec fn distinct_ids(s: Seq<usize>) -> bool {
    forall|j: int, j2: int|
        #![trigger s[j], s[j2]]
        0 <= j < j2 < s.len() ==> s[j] != s[j2]
}

/// The mathematical value of a [`Simulation`].
pub ghost struct SimView {
    pub grid: GridView,
    pub agents: Seq<Agent>,
    pub speed: int,
    pub steering_rate: int,
    pub separation_tolerance: int,
}

impl SimView {
    /// The simulation invariant, checked after every operation:
    /// - the grid is well formed and the configuration within machine range;
    /// - every agent's coordinates are within machine range;
    /// - every agent is registered in the cell its current position maps to;
    /// - every id in a membership list is live and its cell is the one its
    ///   position maps to (so no agent is listed anywhere else);
    /// - no membership list repeats an id;
    /// - the total of all membership lists equals the live population.
    pub open spec fn inv(self) -> bool {
        &&& self.grid.wf()
        &&& 0 <= self.speed <= COORD_LIMIT
        &&& 0 <= self.steering_rate <= COORD_LIMIT
        &&& 0 <= self.separation_tolerance <= COORD_LIMIT
        &&& forall|i: int| 0 <= i < self.agents.len() ==> agent_wf(#[trigger] self.agents[i])
        &&& forall|i: int|
            0 <= i < self.agents.len() ==> self.grid.members_of(
                self.grid.key_of((#[trigger] self.agents[i]).position@),
            ).contains(i as usize)
        &&& forall|c: int, j: int|
            0 <= c < self.grid.cells.len() && 0 <= j < self.grid.cells[c].len() ==> {
                let e = #[trigger] self.grid.cells[c][j];
                &&& (e as int) < self.agents.len()
                &&& self.grid.flat(self.grid.key_of(self.agents[e as int].position@)) == c
            }
        &&& forall|c: int|
            0 <= c < self.grid.cells.len() ==> distinct_ids(#[trigger] self.grid.cells[c])
        &&& self.grid.total_count() == self.agents.len()
    }
}

/// The flocking simulation core.
pub struct Simulation {
    grid: SpatialGrid,
    store: AgentStore,
    speed: i64,
    steering_rate: i64,
    separation_tolerance: i64,
}

impl View for Simulation {
    type V = SimView;

    closed spec fn view(&self) -> SimView {
        SimView {
            grid: self.grid@,
            agents: self.store@,
            speed: self.speed as int,
            steering_rate: self.steering_rate as int,
            separation_tolerance: self.separation_tolerance as int,
        }
    }
}

/// Two simulation views with the same grid shape and configuration.
pub open spec fn same_config(a: SimView, b: SimView) -> bool {
    &&& same_shape(a.grid, b.grid)
    &&& a.speed == b.speed
    &&& a.steering_rate == b.steering_rate
    &&& a.separation_tolerance == b.separation_tolerance
}

impl Simulation {
    /// Builds a simulation with no agents from a validated configuration.
    /// Fails with [`ConfigurationError::InvalidBounds`] when the minimum
    /// corner is not strictly below the maximum on every axis, and with
    /// [`ConfigurationError::InvalidDimensions`] when some grid dimension is
    /// not positive; either error is reported to the caller and nothing
    /// starts.
    pub fn new(config: &SimConfig) -> (r: Result<Simulation, ConfigurationError>)
        requires
            config_in_machine_range(*config),
        ensures
            match r {
                Ok(s) => {
                    &&& s@.inv()
                    &&& s@.agents.len() == 0
                    &&& s@.grid.bounds_min == config.bounds_min@
                    &&& s@.grid.bounds_max == config.bounds_max@
                    &&& s@.grid.nx == config.nx && s@.grid.ny == config.ny && s@.grid.nz
                        == config.nz
                    &&& s@.speed == config.speed
                    &&& s@.steering_rate == config.steering_rate
                    &&& s@.separation_tolerance == config.separation_tolerance
                    &&& bounds_valid(config.bounds_min@, config.bounds_max@)
                    &&& config.nx >= 1 && config.ny >= 1 && config.nz >= 1
                },
                Err(ConfigurationError::InvalidBounds) => !bounds_valid(
                    config.bounds_min@,
                    config.bounds_max@,
                ),
                Err(ConfigurationError::InvalidDimensions) => {
                    &&& bounds_valid(config.bounds_min@, config.bounds_max@)
                    &&& !(config.nx >= 1 && config.ny >= 1 && config.nz >= 1)
                },
            },
    {
        let grid = match SpatialGrid::init(
            config.bounds_min,
            config.bounds_max,
            config.nx,
            config.ny,
            config.nz,
        ) {
            Ok(g) => g,
            Err(e) => {
                return Err(e);
            },
        };
        let s = Simulation {
            grid,
            store: AgentStore::new(),
            speed: config.speed,
            steering_rate: config.steering_rate,
            separation_tolerance: config.separation_tolerance,
        };
        Ok(s)
    }
}


/// Removing the element at `idx` keeps every other contained value and, if
/// the list was duplicate-free, removes `s[idx]` entirely and stays
/// duplicate-free.
proof fn lemma_remove_effects(s: Seq<usize>, idx: int)
    requires
        0 <= idx < s.len(),
    ensures
        forall|e: usize| s.remove(idx).contains(e) ==> s.contains(e),
        forall|e: usize| s.contains(e) && e != s[idx] ==> s.remove(idx).contains(e),
        distinct_ids(s) ==> !s.remove(idx).contains(s[idx]),
        distinct_ids(s) ==> distinct_ids(s.remove(idx)),
{
    s.remove_ensures(idx);
    let t = s.remove(idx);
    assert forall|e: usize| t.contains(e) implies s.contains(e) by {
        let w = choose|w: int| 0 <= w < t.len() && t[w] == e;
        if w < idx {
            assert(s[w] == e);
        } else {
            assert(s[w + 1] == e);
        }
    }
    assert forall|e: usize| s.contains(e) && e != s[idx] implies t.contains(e) by {
        let w = choose|w: int| 0 <= w < s.len() && s[w] == e;
        if w < idx {
            assert(t[w] == e);
        } else {
            assert(t[w - 1] == e);
        }
    }
    if distinct_ids(s) {
        assert forall|e: usize| t.contains(e) implies e != s[idx] by {
            let w = choose|w: int| 0 <= w < t.len() && t[w] == e;
            if w < idx {
                assert(s[w] == e);
            } else {
                assert(s[w + 1] == e);
            }
        }
        assert forall|j: int, j2: int|
            #![trigger t[j], t[j2]]
            0 <= j < j2 < t.len() implies t[j] != t[j2] by {
            let a = if j < idx { j } else { j + 1 };
            let b = if j2 < idx { j2 } else { j2 + 1 };
            assert(t[j] == s[a] && t[j2] == s[b]);
        }
    }
}

impl Simulation {
    /// Spawns one agent at the given position with the given heading
    /// (normalized to unit length before storing) and registers it in the
    /// grid cell of its position, as a single transaction: the agent is
    /// never visible to the store without being indexed, nor vice versa.
    /// Returns the new agent's id.
    pub fn spawn_agent(&mut self, position: Vec3, heading: Vec3) -> (id: usize)
        requires
            old(self)@.inv(),
            position@.bounded(COORD_LIMIT as int),
            heading@.bounded(VEC_LIMIT as int),
            old(self)@.agents.len() < usize::MAX,
        ensures
            final(self)@.inv(),
            same_config(final(self)@, old(self)@),
            id == old(self)@.agents.len(),
            final(self)@.agents.len() == old(self)@.agents.len() + 1,
            forall|j: int|
                0 <= j < old(self)@.agents.len() ==> final(self)@.agents[j] == old(
                    self,
                )@.agents[j],
            final(self)@.agents[id as int].position == position,
            final(self)@.agents[id as int].velocity@ == heading@.normalized(),
            final(self)@.agents[id as int].target_velocity@ == heading@.normalized(),
            final(self)@.agents[id as int].target_changed == false,
    {
        let ghost v0 = self@;
        let vel = heading.normalized();
        let id = self.store.len();
        let a = Agent { position, velocity: vel, target_velocity: vel, target_changed: false };
        self.store.push_agent(a);
        let key = self.grid.cell_key_of(&position);
        let ghost f = self@.grid.flat(key);
        proof {
            lemma_flat_in_range(self@.grid, key);
        }
        let res = self.grid.insert(key, id);
        proof {
            match res {
                Ok(()) => {},
                Err(_) => {
                    assert(false);
                },
            }
            let v1 = self@;
            let n0 = v0.agents.len() as int;
            assert(v1.agents == v0.agents.push(a));
            assert(v1.grid.cells == v0.grid.cells.update(f, v0.grid.cells[f].push(id)));
            vstd::seq_lib::lemma_seq_contains_after_push(v0.grid.cells[f], id, id);
            assert forall|i: int|
                0 <= i < v1.agents.len() implies v1.grid.members_of(
                v1.grid.key_of((v1.agents[i]).position@),
            ).contains(i as usize) by {
                if i < n0 {
                    assert(v1.agents[i] == v0.agents[i]);
                    let k = v0.grid.key_of(v0.agents[i].position@);
                    assert(v1.grid.key_of(v1.agents[i].position@) == k);
                    lemma_key_of_in_range(v0.grid, v0.agents[i].position@);
                    lemma_flat_in_range(v0.grid, k);
                    let c = v0.grid.flat(k);
                    assert(v0.grid.members_of(k).contains(i as usize));
                    if c == f {
                        vstd::seq_lib::lemma_seq_contains_after_push(
                            v0.grid.cells[f],
                            id,
                            i as usize,
                        );
                        assert(v1.grid.members_of(k) == v0.grid.cells[f].push(id));
                    } else {
                        assert(v1.grid.members_of(k) == v0.grid.cells[c]);
                    }
                } else {
                    assert(v1.agents[i] == a);
                    assert(v1.grid.members_of(key) == v0.grid.cells[f].push(id));
                }
            }
            assert forall|c: int, j: int|
                #![trigger v1.grid.cells[c][j]]
                0 <= c < v1.grid.cells.len() && 0 <= j < v1.grid.cells[c].len() implies {
                let e = v1.grid.cells[c][j];
                (e as int) < v1.agents.len() && v1.grid.flat(
                    v1.grid.key_of(v1.agents[e as int].position@),
                ) == c
            } by {
                if c == f && j == v0.grid.cells[f].len() {
                    assert(v1.grid.cells[c][j] == id);
                } else {
                    assert(v1.grid.cells[c][j] == v0.grid.cells[c][j]);
                    let e = v0.grid.cells[c][j];
                    assert((e as int) < n0);
                    assert(v1.agents[e as int] == v0.agents[e as int]);
                }
            }
            assert forall|c: int| 0 <= c < v1.grid.cells.len() implies distinct_ids(
                v1.grid.cells[c],
            ) by {
                if c == f {
                    let s0 = v0.grid.cells[f];
                    let s1 = v1.grid.cells[f];
                    assert(s1 == s0.push(id));
                    assert forall|j: int, j2: int|
                        #![trigger s1[j], s1[j2]]
                        0 <= j < j2 < s1.len() implies s1[j] != s1[j2] by {
                        if j2 < s0.len() {
                            assert(s1[j] == s0[j] && s1[j2] == s0[j2]);
                        } else {
                            assert(s1[j2] == id);
                            assert(s1[j] == s0[j]);
                            assert((s0[j] as int) < n0);
                        }
                    }
                } else {
                    assert(v1.grid.cells[c] == v0.grid.cells[c]);
                }
            }
        }
        id
    }
}


impl Simulation {
    /// Overwrites one agent's state and, when its position now maps to a
    /// different cell, relocates its id in the grid. The two steps are one
    /// transaction from the caller's perspective: no state is observable in
    /// which the agent is indexed in neither or both cells.
    fn place_agent(&mut self, id: usize, a: Agent)
        requires
            old(self)@.inv(),
            id < old(self)@.agents.len(),
            agent_wf(a),
        ensures
            final(self)@.inv(),
            same_config(final(self)@, old(self)@),
            final(self)@.agents == old(self)@.agents.update(id as int, a),
    {
        let ghost v0 = self@;
        let nu = self.store.len();
        let current = match self.store.get(id) {
            Some(c) => c,
            None => {
                proof {
                    assert(false);
                }
                a
            },
        };
        let old_key = self.grid.cell_key_of(&current.position);
        let new_key = self.grid.cell_key_of(&a.position);
        self.store.set_agent(id, a);
        proof {
            lemma_flat_in_range(v0.grid, old_key);
            lemma_flat_in_range(v0.grid, new_key);
        }
        let res = self.grid.relocate(old_key, new_key, id);
        proof {
            let n = v0.agents.len() as int;
            assert(n == nu as int);
            let agents1 = v0.agents.update(id as int, a);
            let f1 = v0.grid.flat(old_key);
            let f2 = v0.grid.flat(new_key);
            let m1 = v0.grid.members_of(old_key);
            assert(m1.contains(id));
            match res {
                Ok(()) => {},
                Err(_) => {
                    assert(false);
                },
            }
            let v1 = self@;
            assert(v1.agents == agents1);
            assert forall|i: int| 0 <= i < n implies agent_wf(v1.agents[i]) by {
                if i != id {
                    assert(v1.agents[i] == v0.agents[i]);
                }
            }
            if old_key == new_key {
                assert(v1.grid == v0.grid);
                assert forall|i: int|
                    0 <= i < n implies v1.grid.members_of(
                    v1.grid.key_of(v1.agents[i].position@),
                ).contains(i as usize) by {
                    if i == id {
                        assert(v1.grid.key_of(a.position@) == new_key);
                        assert(v0.grid.members_of(old_key).contains(id));
                    } else {
                        assert(v1.agents[i] == v0.agents[i]);
                    }
                }
                assert forall|c: int, j: int|
                    #![trigger v1.grid.cells[c][j]]
                    0 <= c < v1.grid.cells.len() && 0 <= j < v1.grid.cells[c].len() implies {
                    let e = v1.grid.cells[c][j];
                    (e as int) < v1.agents.len() && v1.grid.flat(
                        v1.grid.key_of(v1.agents[e as int].position@),
                    ) == c
                } by {
                    let e = v0.grid.cells[c][j];
                    if (e as int) == id {
                        assert(v0.grid.flat(v0.grid.key_of(v0.agents[id as int].position@)) == c);
                        assert(c == f1);
                        assert(v1.grid.flat(v1.grid.key_of(a.position@)) == f2);
                    } else {
                        assert(v1.agents[e as int] == v0.agents[e as int]);
                    }
                }
            } else {
                if f1 == f2 {
                    lemma_flat_injective(v0.grid, old_key, new_key);
                    assert(false);
                }
                lemma_first_idx(m1, id);
                let fi = first_idx(m1, id);
                lemma_remove_effects(m1, fi);
                let rem = m1.remove(fi);
                let c1 = v0.grid.cells.update(f1, rem);
                let pushed = c1[f2].push(id);
                assert(v1.grid.cells == c1.update(f2, pushed));
                assert(c1[f2] == v0.grid.cells[f2]);
                // an occurrence of id anywhere forces that cell to be f1
                assert forall|c: int, j: int|
                    #![trigger v0.grid.cells[c][j]]
                    0 <= c < v0.grid.cells.len() && 0 <= j < v0.grid.cells[c].len()
                    && v0.grid.cells[c][j] == id implies c == f1 by {
                    assert(v0.grid.flat(v0.grid.key_of(v0.agents[id as int].position@)) == c);
                }
                assert(!v0.grid.cells[f2].contains(id)) by {
                    if v0.grid.cells[f2].contains(id) {
                        let w = choose|w: int|
                            0 <= w < v0.grid.cells[f2].len() && v0.grid.cells[f2][w] == id;
                        assert(f2 == f1);
                    }
                }
                // distinctness of every cell afterward
                assert forall|c: int| 0 <= c < v1.grid.cells.len() implies distinct_ids(
                    v1.grid.cells[c],
                ) by {
                    if c == f2 {
                        assert(v1.grid.cells[f2] == v0.grid.cells[f2].push(id));
                        let s0 = v0.grid.cells[f2];
                        let s1 = s0.push(id);
                        assert forall|j: int, j2: int|
                            #![trigger s1[j], s1[j2]]
                            0 <= j < j2 < s1.len() implies s1[j] != s1[j2] by {
                            if j2 < s0.len() {
                                assert(s1[j] == s0[j] && s1[j2] == s0[j2]);
                            } else {
                                assert(s1[j2] == id && s1[j] == s0[j]);
                                assert(s0.contains(s0[j]));
                            }
                        }
                    } else if c == f1 {
                        assert(v1.grid.cells[f1] == rem);
                    } else {
                        assert(v1.grid.cells[c] == v0.grid.cells[c]);
                    }
                }
                // membership of every live agent
                assert forall|i: int|
                    0 <= i < n implies v1.grid.members_of(
                    v1.grid.key_of(v1.agents[i].position@),
                ).contains(i as usize) by {
                    if i == id {
                        assert(v1.grid.key_of(a.position@) == new_key);
                        assert(v1.grid.members_of(new_key) == pushed);
                        assert(pushed[pushed.len() - 1] == id);
                    } else {
                        assert(v1.agents[i] == v0.agents[i]);
                        let k = v0.grid.key_of(v0.agents[i].position@);
                        lemma_key_of_in_range(v0.grid, v0.agents[i].position@);
                        lemma_flat_in_range(v0.grid, k);
                        let c = v0.grid.flat(k);
                        assert(v0.grid.members_of(k).contains(i as usize));
                        assert(i as usize != id);
                        if c == f1 {
                            assert(m1[fi] == id);
                            assert(rem.contains(i as usize));
                            assert(v1.grid.members_of(k) == rem);
                        } else if c == f2 {
                            vstd::seq_lib::lemma_seq_contains_after_push(
                                v0.grid.cells[f2],
                                id,
                                i as usize,
                            );
                            assert(v1.grid.members_of(k) == pushed);
                        } else {
                            assert(v1.grid.members_of(k) == v0.grid.cells[c]);
                        }
                    }
                }
                // every listed id is live and listed under its position's cell
                assert forall|c: int, j: int|
                    #![trigger v1.grid.cells[c][j]]
                    0 <= c < v1.grid.cells.len() && 0 <= j < v1.grid.cells[c].len() implies {
                    let e = v1.grid.cells[c][j];
                    (e as int) < v1.agents.len() && v1.grid.flat(
                        v1.grid.key_of(v1.agents[e as int].position@),
                    ) == c
                } by {
                    if c == f2 {
                        let e = v1.grid.cells[c][j];
                        if j < v0.grid.cells[f2].len() {
                            assert(e == v0.grid.cells[f2][j]);
                            assert(e != id);
                            assert(v1.agents[e as int] == v0.agents[e as int]);
                        } else {
                            assert(e == id);
                            assert(v1.grid.flat(v1.grid.key_of(a.position@)) == f2);
                        }
                    } else if c == f1 {
                        let e = v1.grid.cells[c][j];
                        assert(rem[j] == e);
                        m1.remove_ensures(fi);
                        let w: int = if j < fi {
                            j
                        } else {
                            j + 1
                        };
                        assert(m1[w] == e);
                        assert(v0.grid.cells[f1][w] == e);
                        assert(e != id);
                        assert(v1.agents[e as int] == v0.agents[e as int]);
                    } else {
                        let e = v1.grid.cells[c][j];
                        assert(e == v0.grid.cells[c][j]);
                        assert(e != id);
                        assert(v1.agents[e as int] == v0.agents[e as int]);
                    }
                }
            }
        }
    }
}


/// How a flock-spawned agent comes out: position uniformly inside the world
/// bounds, initial heading equal to the target heading, no pending change.
pub open spec fn spawned_within(g: GridView, a: Agent) -> bool {
    &&& g.bounds_min.x <= a.position@.x < g.bounds_max.x
    &&& g.bounds_min.y <= a.position@.y < g.bounds_max.y
    &&& g.bounds_min.z <= a.position@.z < g.bounds_max.z
    &&& a.velocity == a.target_velocity
    &&& a.target_changed == false
}

/// A view with the same grid, configuration, agent count, and agent
/// positions as `v0` (and well-formed agents) still satisfies the invariant:
/// nothing the grid registration depends on has moved.
proof fn lemma_inv_same_positions(v0: SimView, v1: SimView)
    requires
        v0.inv(),
        v1.grid == v0.grid,
        v1.speed == v0.speed,
        v1.steering_rate == v0.steering_rate,
        v1.separation_tolerance == v0.separation_tolerance,
        v1.agents.len() == v0.agents.len(),
        forall|i: int|
            0 <= i < v1.agents.len() ==> (#[trigger] v1.agents[i]).position == v0.agents[i].position
                && agent_wf(v1.agents[i]),
    ensures
        v1.inv(),
{
    assert forall|i: int|
        0 <= i < v1.agents.len() implies v1.grid.members_of(
        v1.grid.key_of((v1.agents[i]).position@),
    ).contains(i as usize) by {
        assert(v1.agents[i].position == v0.agents[i].position);
    }
    assert forall|c: int, j: int|
        #![trigger v1.grid.cells[c][j]]
        0 <= c < v1.grid.cells.len() && 0 <= j < v1.grid.cells[c].len() implies {
        let e = v1.grid.cells[c][j];
        (e as int) < v1.agents.len() && v1.grid.flat(
            v1.grid.key_of(v1.agents[e as int].position@),
        ) == c
    } by {
        let e = v0.grid.cells[c][j];
        assert((e as int) < v0.agents.len());
        assert(v1.agents[e as int].position == v0.agents[e as int].position);
    }
}

impl Simulation {
    /// The agent with the given id.
    fn agent_at(&self, id: usize) -> (a: Agent)
        requires
            id < self@.agents.len(),
        ensures
            a == self@.agents[id as int],
    {
        match self.store.get(id) {
            Some(a) => a,
            None => {
                proof {
                    assert(false);
                }
                Agent {
                    position: Vec3 { x: 0, y: 0, z: 0 },
                    velocity: Vec3 { x: 0, y: 0, z: 0 },
                    target_velocity: Vec3 { x: 0, y: 0, z: 0 },
                    target_changed: false,
                }
            },
        }
    }

    /// Moves one agent to a new position, relocating its id between grid
    /// cells when the cell key changes. Returns whether the id was live;
    /// nothing changes for an unknown id.
    pub fn set_position(&mut self, id: usize, position: Vec3) -> (ok: bool)
        requires
            old(self)@.inv(),
            position@.bounded(COORD_LIMIT as int),
        ensures
            final(self)@.inv(),
            same_config(final(self)@, old(self)@),
            ok == (id < old(self)@.agents.len()),
            ok ==> final(self)@.agents == old(self)@.agents.update(
                id as int,
                (Agent {
                    position,
                    velocity: old(self)@.agents[id as int].velocity,
                    target_velocity: old(self)@.agents[id as int].target_velocity,
                    target_changed: old(self)@.agents[id as int].target_changed,
                }),
            ),
            !ok ==> final(self)@ == old(self)@,
    {
        if id >= self.store.len() {
            return false;
        }
        let c = self.agent_at(id);
        let a = Agent {
            position,
            velocity: c.velocity,
            target_velocity: c.target_velocity,
            target_changed: c.target_changed,
        };
        self.place_agent(id, a);
        true
    }

    /// Spawns `count` agents, each with a uniformly random position inside
    /// the world bounds and a random initial heading biased away from
    /// vertical, registered in its grid cell as it appears.
    pub fn spawn_flock(&mut self, count: u32)
        requires
            old(self)@.inv(),
            old(self)@.agents.len() + count <= usize::MAX,
        ensures
            final(self)@.inv(),
            same_config(final(self)@, old(self)@),
            final(self)@.agents.len() == old(self)@.agents.len() + count,
            forall|j: int|
                0 <= j < old(self)@.agents.len() ==> final(self)@.agents[j] == old(
                    self,
                )@.agents[j],
            forall|j: int|
                old(self)@.agents.len() <= j < final(self)@.agents.len() ==> spawned_within(
                    old(self)@.grid,
                    #[trigger] final(self)@.agents[j],
                ),
    {
        let ghost v0 = self@;
        let (bmin, bmax) = self.grid.bounds();
        let mut k: u32 = 0;
        while k < count
            invariant
                self@.inv(),
                same_config(self@, v0),
                bmin@ == v0.grid.bounds_min,
                bmax@ == v0.grid.bounds_max,
                v0.grid.wf(),
                k <= count,
                v0.agents.len() + count <= usize::MAX,
                self@.agents.len() == v0.agents.len() + k,
                forall|j: int| 0 <= j < v0.agents.len() ==> self@.agents[j] == v0.agents[j],
                forall|j: int|
                    v0.agents.len() <= j < self@.agents.len() ==> spawned_within(
                        v0.grid,
                        #[trigger] self@.agents[j],
                    ),
            decreases count - k,
        {
            let px = crate::rng::random_in_range(bmin.x, bmax.x);
            let py = crate::rng::random_in_range(bmin.y, bmax.y);
            let pz = crate::rng::random_in_range(bmin.z, bmax.z);
            let hx = crate::rng::random_in_range(-10 * SCALE, 10 * SCALE);
            let hy = crate::rng::random_in_range(-3 * SCALE, 3 * SCALE);
            let hz = crate::rng::random_in_range(-10 * SCALE, 10 * SCALE);
            let position = Vec3 { x: px, y: py, z: pz };
            let heading = Vec3 { x: hx, y: hy, z: hz };
            self.spawn_agent(position, heading);
            k = k + 1;
        }
    }
}


/// The neighbor ids an agent observes: the membership list of the one cell
/// containing its position.
pub open spec fn neighbor_ids(v: SimView, i: int) -> Seq<usize> {
    v.grid.members_of(v.grid.key_of(v.agents[i].position@))
}

/// The steering target the behavior pipeline computes for agent `i` from
/// the frozen state `v` of the previous tick.
pub open spec fn steered_target(v: SimView, i: int) -> SpecVec3 {
    let ids = neighbor_ids(v, i);
    steer_spec(
        v.agents[i].position@,
        ids.map_values(|id: usize| v.agents[id as int].position@),
        ids.map_values(|id: usize| v.agents[id as int].velocity@),
        v.separation_tolerance,
        v.grid.bounds_max,
        v.agents[i].target_velocity@,
    )
}

/// Whether the steering pass changes agent `i`'s target this tick.
pub open spec fn target_changes(v: SimView, i: int) -> bool {
    steered_target(v, i) != v.agents[i].target_velocity@
}

/// The post-tick velocity of agent `i`: blended toward the new target only
/// when the target changed, otherwise untouched.
pub open spec fn ticked_velocity(v: SimView, i: int, dt: int) -> SpecVec3 {
    if target_changes(v, i) {
        vel_spec(v.agents[i].velocity@, steered_target(v, i), v.steering_rate, dt)
    } else {
        v.agents[i].velocity@
    }
}

/// The post-tick position of agent `i`: advanced along the post-tick
/// velocity.
pub open spec fn ticked_position(v: SimView, i: int, dt: int) -> SpecVec3 {
    move_spec(v.agents[i].position@, ticked_velocity(v, i, dt), v.speed, dt)
}

impl Simulation {
    /// The positions and velocities of the listed agents, in list order.
    fn gather_neighbor_state(&self, ids: &Vec<usize>) -> (r: (Vec<Vec3>, Vec<Vec3>))
        requires
            forall|m: int| 0 <= m < ids@.len() ==> (ids@[m] as int) < self@.agents.len(),
        ensures
            r.0@.len() == ids@.len(),
            r.1@.len() == ids@.len(),
            forall|m: int|
                0 <= m < ids@.len() ==> r.0@[m] == self@.agents[ids@[m] as int].position
                    && r.1@[m] == self@.agents[ids@[m] as int].velocity,
    {
        let mut npos: Vec<Vec3> = Vec::new();
        let mut nvel: Vec<Vec3> = Vec::new();
        let mut m: usize = 0;
        while m < ids.len()
            invariant
                m <= ids@.len(),
                forall|w: int| 0 <= w < ids@.len() ==> (ids@[w] as int) < self@.agents.len(),
                npos@.len() == m,
                nvel@.len() == m,
                forall|w: int|
                    0 <= w < m ==> npos@[w] == self@.agents[ids@[w] as int].position
                        && nvel@[w] == self@.agents[ids@[w] as int].velocity,
            decreases ids@.len() - m,
        {
            let a = self.agent_at(ids[m]);
            npos.push(a.position);
            nvel.push(a.velocity);
            m = m + 1;
        }
        (npos, nvel)
    }

    /// One full simulation tick: the steering pass computes every agent's
    /// new target from the frozen state of the previous tick (no agent sees
    /// another's in-progress update), then the integration pass blends the
    /// velocity of each agent whose target changed, advances every agent's
    /// position, and relocates ids whose cell key changed. The presentation
    /// layer derives each agent's facing from its velocity direction.
    /// `delta_time == 0` is valid and produces no motion.
    pub fn tick(&mut self, dt: i64)
        requires
            old(self)@.inv(),
            0 <= dt <= COORD_LIMIT,
        ensures
            final(self)@.inv(),
            same_config(final(self)@, old(self)@),
            final(self)@.agents.len() == old(self)@.agents.len(),
            forall|i: int|
                0 <= i < old(self)@.agents.len() ==> {
                    let a = #[trigger] final(self)@.agents[i];
                    &&& a.target_velocity@ == steered_target(old(self)@, i)
                    &&& a.target_changed == target_changes(old(self)@, i)
                    &&& a.velocity@ == ticked_velocity(old(self)@, i, dt as int)
                    &&& a.position@ == ticked_position(old(self)@, i, dt as int)
                },
    {
        let ghost v0 = self@;
        let n = self.store.len();
        let (_bmin, bmax) = self.grid.bounds();
        let mut i: usize = 0;
        while i < n
            invariant
                self@.inv(),
                same_config(self@, v0),
                self@.grid == v0.grid,
                bmax@ == v0.grid.bounds_max,
                n == v0.agents.len(),
                self@.agents.len() == n,
                i <= n,
                forall|j: int|
                    0 <= j < n ==> (#[trigger] self@.agents[j]).position == v0.agents[j].position
                        && self@.agents[j].velocity == v0.agents[j].velocity,
                forall|j: int|
                    0 <= j < i ==> (#[trigger] self@.agents[j]).target_velocity@ == steered_target(
                        v0,
                        j,
                    ) && self@.agents[j].target_changed == target_changes(v0, j),
                forall|j: int| i <= j < n ==> self@.agents[j] == v0.agents[j],
            decreases n - i,
        {
            let a = self.agent_at(i);
            let ids = self.grid.neighbors_of(&a.position);
            proof {
                let k = self@.grid.key_of(a.position@);
                lemma_key_of_in_range(self@.grid, a.position@);
                lemma_flat_in_range(self@.grid, k);
                assert(ids@ == self@.grid.cells[self@.grid.flat(k)]);
                assert(forall|m: int|
                    0 <= m < ids@.len() ==> (#[trigger] ids@[m] as int) < self@.agents.len());
                assert(ids@ == neighbor_ids(v0, i as int));
            }
            let (npos, nvel) = self.gather_neighbor_state(&ids);
            let t = steer_target(
                &a.position,
                &npos,
                &nvel,
                self.separation_tolerance,
                &bmax,
                &a.target_velocity,
            );
            proof {
                assert(npos@.map_values(|v: Vec3| v@) =~= neighbor_ids(v0, i as int).map_values(
                    |id: usize| v0.agents[id as int].position@,
                ));
                assert(nvel@.map_values(|v: Vec3| v@) =~= neighbor_ids(v0, i as int).map_values(
                    |id: usize| v0.agents[id as int].velocity@,
                ));
                assert(t@ == steered_target(v0, i as int));
            }
            let changed = !(t.x == a.target_velocity.x && t.y == a.target_velocity.y && t.z
                == a.target_velocity.z);
            let na = Agent {
                position: a.position,
                velocity: a.velocity,
                target_velocity: t,
                target_changed: changed,
            };
            let ghost before = self@;
            self.store.set_agent(i, na);
            proof {
                assert(changed == target_changes(v0, i as int));
                lemma_inv_same_positions(before, self@);
            }
            i = i + 1;
        }
        let mut i: usize = 0;
        while i < n
            invariant
                self@.inv(),
                same_config(self@, v0),
                n == v0.agents.len(),
                self@.agents.len() == n,
                i <= n,
                0 <= dt <= COORD_LIMIT,
                forall|j: int|
                    0 <= j < n ==> (#[trigger] self@.agents[j]).target_velocity@ == steered_target(
                        v0,
                        j,
                    ) && self@.agents[j].target_changed == target_changes(v0, j),
                forall|j: int|
                    0 <= j < i ==> (#[trigger] self@.agents[j]).velocity@ == ticked_velocity(
                        v0,
                        j,
                        dt as int,
                    ) && self@.agents[j].position@ == ticked_position(v0, j, dt as int),
                forall|j: int|
                    i <= j < n ==> (#[trigger] self@.agents[j]).velocity == v0.agents[j].velocity
                        && self@.agents[j].position == v0.agents[j].position,
            decreases n - i,
        {
            let a = self.agent_at(i);
            let vel = if a.target_changed {
                blend_velocity(&a.velocity, &a.target_velocity, self.steering_rate, dt)
            } else {
                a.velocity
            };
            proof {
                assert(vel@ == ticked_velocity(v0, i as int, dt as int));
            }
            let pos = advance_position(&a.position, &vel, self.speed, dt);
            let na = Agent {
                position: pos,
                velocity: vel,
                target_velocity: a.target_velocity,
                target_changed: a.target_changed,
            };
            self.place_agent(i, na);
            i = i + 1;
        }
    }
}


/// Registration consistency: under the invariant (re-established after every
/// tick), each live agent's cell key, recomputed from its current position,
/// names a cell whose membership list contains the agent — and any cell
/// listing it is exactly that one.
pub proof fn lemma_registration_consistent(v: SimView, i: int)
    requires
        v.inv(),
        0 <= i < v.agents.len(),
    ensures
        v.grid.members_of(v.grid.key_of(v.agents[i].position@)).contains(i as usize),
        forall|c: int, j: int|
            0 <= c < v.grid.cells.len() && 0 <= j < v.grid.cells[c].len() && (
            #[trigger] v.grid.cells[c][j]) as int == i ==> c == v.grid.flat(
                v.grid.key_of(v.agents[i].position@),
            ),
{
    assert forall|c: int, j: int|
        0 <= c < v.grid.cells.len() && 0 <= j < v.grid.cells[c].len() && (
        #[trigger] v.grid.cells[c][j]) as int == i implies c == v.grid.flat(
        v.grid.key_of(v.agents[i].position@),
    ) by {
        assert(v.grid.flat(v.grid.key_of(v.agents[v.grid.cells[c][j] as int].position@)) == c);
    }
}

/// Population conservation: under the invariant, the total count of agent
/// ids across all cell membership lists equals the live agent population —
/// no agent is duplicated or lost.
pub proof fn lemma_population_conserved(v: SimView)
    requires
        v.inv(),
    ensures
        v.grid.total_count() == v.agents.len(),
{
}

impl Simulation {
    /// Number of live agents.
    pub fn agent_count(&self) -> (r: usize)
        ensures
            r == self@.agents.len(),
    {
        self.store.len()
    }

    /// Read-out of one agent's current state (position, heading, target),
    /// for presentation; `None` for an unknown id.
    pub fn agent(&self, id: usize) -> (r: Option<Agent>)
        ensures
            match r {
                Some(a) => id < self@.agents.len() && a == self@.agents[id as int],
                None => id >= self@.agents.len(),
            },
    {
        self.store.get(id)
    }

    /// The cell key the grid maps a position to.
    pub fn cell_key_of(&self, position: &Vec3) -> (k: CellKey)
        requires
            self@.inv(),
        ensures
            k == self@.grid.key_of(position@),
            self@.grid.in_range(k),
    {
        self.grid.cell_key_of(position)
    }

    /// The ids sharing the cell of `position` (the same-cell neighbor
    /// query).
    pub fn neighbors_of(&self, position: &Vec3) -> (r: Vec<usize>)
        requires
            self@.inv(),
        ensures
            r@ == self@.grid.members_of(self@.grid.key_of(position@)),
    {
        self.grid.neighbors_of(position)
    }

    /// The membership list of one cell, by key.
    pub fn cell_members(&self, key: CellKey) -> (r: Result<Vec<usize>, SpatialIndexError>)
        requires
            self@.inv(),
        ensures
            match r {
                Ok(v) => self@.grid.in_range(key) && v@ == self@.grid.members_of(key),
                Err(e) => e == (SpatialIndexError::UnknownCell { key }) && !self@.grid.in_range(
                    key,
                ),
            },
    {
        self.grid.members(key)
    }

    /// The grid dimensions along each axis.
    pub fn grid_dims(&self) -> (r: (usize, usize, usize))
        ensures
            r.0 == self@.grid.nx,
            r.1 == self@.grid.ny,
            r.2 == self@.grid.nz,
    {
        self.grid.dims()
    }
}

} // verus!
