//! The simulation world: the agent records, the spatial index kept
//! synchronized with them, and the per-tick entry point that runs the query
//! phase, the boundary correction and the integration phase in order.

use crate::flock::{
    accum_spec, accumulate, Accum, AccumModel, AgentSnap, Config, MAX_AGENTS, MAX_COORD,
    MAX_MAGNITUDE, VEL_LIMIT, VEL_PHASE_LIMIT,
};
use crate::geom::Vec2i;
use crate::voxel::{block_keys, cell_key, ring_count, VoxelHashMap};
use vstd::prelude::*;

verus! {

/// One simulated agent: its stable handle, kinematic state, interaction
/// radii, and the transient per-tick accumulators.
#[derive(Clone, Copy, PartialEq, Eq, Structural, Debug)]
pub struct AgentState {
    pub id: u64,
    pub pos: Vec2i,
    pub vel: Vec2i,
    pub avoid_radius: i64,
    pub align_radius: i64,
    pub acc: Accum,
}

/// Accumulators at rest, between ticks.
pub open spec fn zero_accum() -> Accum {
    Accum {
        separation: Vec2i { x: 0, y: 0 },
        alignment: Vec2i { x: 0, y: 0 },
        cohesion: Vec2i { x: 0, y: 0 },
        neighbor_count: 0,
    }
}

/// The whole simulation state.
pub struct World {
    config: Config,
    agents: Vec<AgentState>,
    index: VoxelHashMap,
    next_id: u64,
}

impl World {
    /// The configuration the world was built with.
    pub closed spec fn config_spec(self) -> Config {
        self.config
    }

    /// The agent records, in storage order.
    pub closed spec fn agents_spec(self) -> Seq<AgentState> {
        self.agents@
    }

    /// The spatial index.
    pub closed spec fn index_spec(self) -> VoxelHashMap {
        self.index
    }

    /// The next handle a spawn will hand out.
    pub closed spec fn next_id_spec(self) -> u64 {
        self.next_id
    }

    /// Index membership and positions are synchronized: an id is registered
    /// under a cell exactly when some agent carries that id and that cell is
    /// the one of its current position.
    pub open spec fn synced(self) -> bool {
        forall|k: (int, int), e: u64|
            #[trigger] self.index_spec().member(k, e) <==> exists|i: int|
                0 <= i < self.agents_spec().len() && (#[trigger] self.agents_spec()[i]).id == e
                    && k == cell_key(
                    self.config_spec().cell_size as int,
                    self.agents_spec()[i].pos,
                )
    }

    /// A valid configuration, a well-formed index over the configured cell
    /// size, no more agents than the cap, pairwise-distinct ids all below
    /// the next handle, per-agent radii as the configuration demands, and
    /// the index synchronized with the agents.
    pub open spec fn wf(self) -> bool {
        &&& self.config_spec().wf()
        &&& self.index_spec().wf()
        &&& self.index_spec().cell_size_spec() == self.config_spec().cell_size
        &&& self.agents_spec().len() <= MAX_AGENTS
        &&& forall|i: int, j: int|
            0 <= i < j < self.agents_spec().len() ==> (#[trigger] self.agents_spec()[i]).id != (
            #[trigger] self.agents_spec()[j]).id
        &&& forall|i: int|
            0 <= i < self.agents_spec().len() ==> (#[trigger] self.agents_spec()[i]).id
                < self.next_id_spec()
        &&& forall|i: int|
            0 <= i < self.agents_spec().len() ==> 1 <= (#[trigger] self.agents_spec()[i]).avoid_radius
                <= self.agents_spec()[i].align_radius <= MAX_MAGNITUDE
        &&& self.synced()
    }

    /// Every agent position within `b` on both axes.
    pub open spec fn pos_bounded(self, b: int) -> bool {
        forall|i: int|
            0 <= i < self.agents_spec().len() ==> -b <= (#[trigger] self.agents_spec()[i]).pos.x
                <= b && -b <= self.agents_spec()[i].pos.y <= b
    }

    /// Every agent velocity within `b` on both axes.
    pub open spec fn vels_bounded(self, b: int) -> bool {
        forall|i: int|
            0 <= i < self.agents_spec().len() ==> -b <= (#[trigger] self.agents_spec()[i]).vel.x
                <= b && -b <= self.agents_spec()[i].vel.y <= b
    }

    /// Build an empty world under a validated configuration.
    pub fn new(config: Config) -> (w: World)
        requires
            config.wf(),
        ensures
            w.wf(),
            w.config_spec() == config,
            w.agents_spec().len() == 0,
            w.index_spec().num_cells_spec() == 0,
            w.next_id_spec() == 0,
    {
        let mut index = VoxelHashMap::new();
        index.set_cell_size(config.cell_size);
        let w = World { config, agents: Vec::new(), index, next_id: 0 };
        proof {
            assert forall|k: (int, int), e: u64| !(#[trigger] w.index_spec().member(k, e)) by {
                assert(w.index_spec().members_at(k) =~= Seq::<u64>::empty());
            }
        }
        w
    }

    /// How many agents are alive.
    pub fn num_agents(&self) -> (n: usize)
        ensures
            n == self.agents_spec().len(),
    {
        self.agents.len()
    }

    /// The agent stored at slot `i`.
    pub fn agent_at(&self, i: usize) -> (a: AgentState)
        requires
            i < self.agents_spec().len(),
        ensures
            a == self.agents_spec()[i as int],
    {
        self.agents[i]
    }

    /// The configuration the world runs under.
    pub fn config(&self) -> (c: Config)
        ensures
            c == self.config_spec(),
    {
        self.config
    }

    /// The slot of the agent carrying `id`, if it is alive.
    pub fn find_agent(&self, id: u64) -> (o: Option<usize>)
        ensures
            match o {
                Some(i) => i < self.agents_spec().len() && self.agents_spec()[i as int].id == id,
                None => forall|i: int|
                    0 <= i < self.agents_spec().len() ==> (#[trigger] self.agents_spec()[i]).id
                        != id,
            },
    {
        let n = self.agents.len();
        let mut i: usize = 0;
        while i < n
            invariant
                n == self.agents@.len(),
                i <= n,
                forall|j: int| 0 <= j < i ==> (#[trigger] self.agents@[j]).id != id,
            decreases n - i,
        {
            if self.agents[i].id == id {
                return Some(i);
            }
            i = i + 1;
        }
        None
    }

    /// The spawn hook: create the agent record for an initial position and
    /// velocity, register it in the index, and hand back its new id.
    pub fn spawn(&mut self, position: Vec2i, velocity: Vec2i) -> (id: u64)
        requires
            old(self).wf(),
            old(self).agents_spec().len() < MAX_AGENTS,
            old(self).next_id_spec() < u64::MAX,
            -MAX_COORD <= position.x <= MAX_COORD,
            -MAX_COORD <= position.y <= MAX_COORD,
            -VEL_LIMIT <= velocity.x <= VEL_LIMIT,
            -VEL_LIMIT <= velocity.y <= VEL_LIMIT,
        ensures
            final(self).wf(),
            id == old(self).next_id_spec(),
            final(self).next_id_spec() == id + 1,
            final(self).config_spec() == old(self).config_spec(),
            final(self).agents_spec() == old(self).agents_spec().push(
                AgentState {
                    id,
                    pos: position,
                    vel: velocity,
                    avoid_radius: old(self).config_spec().avoid_radius,
                    align_radius: old(self).config_spec().align_radius,
                    acc: zero_accum(),
                },
            ),
    {
        let ghost pre = *self;
        let id = self.next_id;
        self.next_id = id + 1;
        self.index.insert(position, id);
        let agent = AgentState {
            id,
            pos: position,
            vel: velocity,
            avoid_radius: self.config.avoid_radius,
            align_radius: self.config.align_radius,
            acc: Accum {
                separation: Vec2i { x: 0, y: 0 },
                alignment: Vec2i { x: 0, y: 0 },
                cohesion: Vec2i { x: 0, y: 0 },
                neighbor_count: 0,
            },
        };
        self.agents.push(agent);
        proof {
            let cs = self.config_spec().cell_size as int;
            let kk = cell_key(cs, position);
            let n = pre.agents_spec().len() as int;
            assert forall|k: (int, int), e: u64| #[trigger] self.index_spec().member(k, e)
                <==> exists|i: int|
                    0 <= i < self.agents_spec().len() && (#[trigger] self.agents_spec()[i]).id == e
                        && k == cell_key(cs, self.agents_spec()[i].pos) by {
                if e == id {
                    assert(!pre.index_spec().member(k, e));
                    if self.index_spec().member(k, e) {
                        assert(k == kk);
                    }
                    if k == kk {
                        assert(self.index_spec().member(k, e));
                        assert(self.agents_spec()[n].id == e && k == cell_key(
                            cs,
                            self.agents_spec()[n].pos,
                        ));
                    }
                    if exists|i: int|
                        0 <= i < self.agents_spec().len() && (#[trigger] self.agents_spec()[i]).id
                            == e && k == cell_key(cs, self.agents_spec()[i].pos) {
                        let i = choose|i: int|
                            0 <= i < self.agents_spec().len() && (#[trigger] self.agents_spec()[i]).id
                                == e && k == cell_key(cs, self.agents_spec()[i].pos);
                        if i < n {
                            assert(pre.agents_spec()[i].id == e);
                            assert(false);
                        }
                        assert(k == kk);
                    }
                } else {
                    assert(self.index_spec().member(k, e) == pre.index_spec().member(k, e));
                    if self.index_spec().member(k, e) {
                        let i = choose|i: int|
                            0 <= i < pre.agents_spec().len() && (#[trigger] pre.agents_spec()[i]).id
                                == e && k == cell_key(cs, pre.agents_spec()[i].pos);
                        assert(self.agents_spec()[i].id == e && k == cell_key(
                            cs,
                            self.agents_spec()[i].pos,
                        ));
                    }
                    if exists|i: int|
                        0 <= i < self.agents_spec().len() && (#[trigger] self.agents_spec()[i]).id
                            == e && k == cell_key(cs, self.agents_spec()[i].pos) {
                        let i = choose|i: int|
                            0 <= i < self.agents_spec().len() && (#[trigger] self.agents_spec()[i]).id
                                == e && k == cell_key(cs, self.agents_spec()[i].pos);
                        assert(i < n);
                        assert(pre.agents_spec()[i].id == e && k == cell_key(
                            cs,
                            pre.agents_spec()[i].pos,
                        ));
                        assert(pre.index_spec().member(k, e));
                    }
                }
            }
        }
        id
    }

    /// The despawn hook: drop `id` from the index and discard its record.
    /// Hands back whether the id was alive; removing an unknown id is a
    /// silent no-op.
    pub fn despawn(&mut self, id: u64) -> (found: bool)
        requires
            old(self).wf(),
        ensures
            final(self).wf(),
            final(self).config_spec() == old(self).config_spec(),
            final(self).next_id_spec() == old(self).next_id_spec(),
            found <==> exists|i: int|
                0 <= i < old(self).agents_spec().len() && (#[trigger] old(self).agents_spec()[i]).id
                    == id,
            !found ==> *final(self) == *old(self),
            forall|j: int|
                0 <= j < final(self).agents_spec().len() ==> (#[trigger] final(self).agents_spec()[j]).id != id && old(self).agents_spec().contains(
                    final(self).agents_spec()[j],
                ),
            found ==> final(self).agents_spec().len() == old(self).agents_spec().len() - 1,
    {
        let slot = self.find_agent(id);
        match slot {
            None => false,
            Some(i) => {
                let ghost pre = *self;
                let a = self.agents[i];
                self.index.remove(a.pos, id);
                self.agents.swap_remove(i);
                proof {
                    let cs = self.config_spec().cell_size as int;
                    let kk = cell_key(cs, a.pos);
                    let n = pre.agents_spec().len() as int;
                    assert(forall|j: int|
                        0 <= j < n - 1 ==> #[trigger] self.agents_spec()[j] == (if j == i as int {
                            pre.agents_spec()[n - 1]
                        } else {
                            pre.agents_spec()[j]
                        }));
                    assert(!pre.index_spec().member(kk, id) ==> false) by {
                        assert(pre.agents_spec()[i as int].id == id && kk == cell_key(
                            cs,
                            pre.agents_spec()[i as int].pos,
                        ));
                    }
                    assert forall|k: (int, int), e: u64| #[trigger] self.index_spec().member(k, e)
                        <==> exists|j: int|
                            0 <= j < self.agents_spec().len() && (
                            #[trigger] self.agents_spec()[j]).id == e && k == cell_key(
                                cs,
                                self.agents_spec()[j].pos,
                            ) by {
                        if e == id {
                            assert(!self.index_spec().member(k, e)) by {
                                if k != kk {
                                    if self.index_spec().member(k, e) {
                                        assert(pre.index_spec().member(k, e));
                                        let j = choose|j: int|
                                            0 <= j < pre.agents_spec().len() && (
                                            #[trigger] pre.agents_spec()[j]).id == e && k
                                                == cell_key(cs, pre.agents_spec()[j].pos);
                                        assert(j == i as int);
                                        assert(false);
                                    }
                                }
                            }
                            if exists|j: int|
                                0 <= j < self.agents_spec().len() && (
                                #[trigger] self.agents_spec()[j]).id == e && k == cell_key(
                                    cs,
                                    self.agents_spec()[j].pos,
                                ) {
                                let j = choose|j: int|
                                    0 <= j < self.agents_spec().len() && (
                                    #[trigger] self.agents_spec()[j]).id == e && k == cell_key(
                                        cs,
                                        self.agents_spec()[j].pos,
                                    );
                                let j0 = if j == i as int {
                                    n - 1
                                } else {
                                    j
                                };
                                assert(pre.agents_spec()[j0].id == id);
                                assert(j0 == i as int);
                                assert(false);
                            }
                        } else {
                            assert(self.index_spec().member(k, e) == pre.index_spec().member(k, e));
                            if self.index_spec().member(k, e) {
                                let j = choose|j: int|
                                    0 <= j < pre.agents_spec().len() && (
                                    #[trigger] pre.agents_spec()[j]).id == e && k == cell_key(
                                        cs,
                                        pre.agents_spec()[j].pos,
                                    );
                                assert(j != i as int);
                                let j1 = if j == n - 1 {
                                    i as int
                                } else {
                                    j
                                };
                                assert(self.agents_spec()[j1].id == e && k == cell_key(
                                    cs,
                                    self.agents_spec()[j1].pos,
                                ));
                            }
                            if exists|j: int|
                                0 <= j < self.agents_spec().len() && (
                                #[trigger] self.agents_spec()[j]).id == e && k == cell_key(
                                    cs,
                                    self.agents_spec()[j].pos,
                                ) {
                                let j = choose|j: int|
                                    0 <= j < self.agents_spec().len() && (
                                    #[trigger] self.agents_spec()[j]).id == e && k == cell_key(
                                        cs,
                                        self.agents_spec()[j].pos,
                                    );
                                let j0 = if j == i as int {
                                    n - 1
                                } else {
                                    j
                                };
                                assert(pre.agents_spec()[j0].id == e && k == cell_key(
                                    cs,
                                    pre.agents_spec()[j0].pos,
                                ));
                                assert(pre.index_spec().member(k, e));
                            }
                        }
                    }
                }
                true
            },
        }
    }
}

/// The first agent carrying `e`, scanning from the front.
pub open spec fn lookup_spec(agents: Seq<AgentState>, e: u64) -> Option<AgentState>
    decreases agents.len(),
{
    if agents.len() == 0 {
        None
    } else if agents[0].id == e {
        Some(agents[0])
    } else {
        lookup_spec(agents.drop_first(), e)
    }
}

/// A successful lookup hands back a stored agent with the asked-for id.
pub proof fn lemma_lookup_is_agent(agents: Seq<AgentState>, e: u64)
    requires
        lookup_spec(agents, e) is Some,
    ensures
        agents.contains(lookup_spec(agents, e).unwrap()),
        lookup_spec(agents, e).unwrap().id == e,
    decreases agents.len(),
{
    if agents.len() > 0 && agents[0].id != e {
        lemma_lookup_is_agent(agents.drop_first(), e);
        let a = lookup_spec(agents, e).unwrap();
        let j = choose|j: int|
            0 <= j < agents.drop_first().len() && agents.drop_first()[j] == a;
        assert(agents[j + 1] == a);
    }
}

/// Find the first agent carrying `e`.
fn lookup_agent(agents: &Vec<AgentState>, e: u64) -> (o: Option<AgentState>)
    ensures
        o == lookup_spec(agents@, e),
{
    let n = agents.len();
    let mut i: usize = 0;
    proof {
        assert(agents@.skip(0) =~= agents@);
    }
    while i < n
        invariant
            n == agents@.len(),
            i <= n,
            lookup_spec(agents@, e) == lookup_spec(agents@.skip(i as int), e),
        decreases n - i,
    {
        proof {
            assert(agents@.skip(i as int)[0] == agents@[i as int]);
            assert(agents@.skip(i as int).drop_first() =~= agents@.skip(i + 1));
        }
        if agents[i].id == e {
            return Some(agents[i]);
        }
        i = i + 1;
    }
    proof {
        assert(agents@.skip(n as int) =~= Seq::<AgentState>::empty());
    }
    None
}

/// The snapshots of the agents behind a list of candidate ids, in order;
/// an id no agent carries is passed over.
pub open spec fn resolve_spec(agents: Seq<AgentState>, ids: Seq<u64>) -> Seq<AgentSnap>
    decreases ids.len(),
{
    if ids.len() == 0 {
        Seq::empty()
    } else {
        let rest = resolve_spec(agents, ids.drop_first());
        match lookup_spec(agents, ids[0]) {
            Some(a) => seq![AgentSnap { id: a.id, pos: a.pos, vel: a.vel }] + rest,
            None => rest,
        }
    }
}

/// Resolving one more id appends at most its snapshot.
proof fn lemma_resolve_push(agents: Seq<AgentState>, ids: Seq<u64>, e: u64)
    ensures
        resolve_spec(agents, ids.push(e)) == resolve_spec(agents, ids) + (match lookup_spec(
            agents,
            e,
        ) {
            Some(a) => seq![AgentSnap { id: a.id, pos: a.pos, vel: a.vel }],
            None => Seq::<AgentSnap>::empty(),
        }),
    decreases ids.len(),
{
    let tail = (match lookup_spec(agents, e) {
        Some(a) => seq![AgentSnap { id: a.id, pos: a.pos, vel: a.vel }],
        None => Seq::<AgentSnap>::empty(),
    });
    if ids.len() == 0 {
        assert(ids.push(e)[0] == e);
        assert(ids.push(e).drop_first() =~= Seq::<u64>::empty());
        assert(resolve_spec(agents, Seq::<u64>::empty()) =~= Seq::<AgentSnap>::empty());
        assert(resolve_spec(agents, ids.push(e)) =~= tail);
        assert(resolve_spec(agents, ids) + tail =~= tail);
    } else {
        assert(ids.push(e).drop_first() =~= ids.drop_first().push(e));
        assert(ids.push(e)[0] == ids[0]);
        lemma_resolve_push(agents, ids.drop_first(), e);
        match lookup_spec(agents, ids[0]) {
            Some(a) => {
                assert(seq![AgentSnap { id: a.id, pos: a.pos, vel: a.vel }] + (resolve_spec(
                    agents,
                    ids.drop_first(),
                ) + tail) =~= (seq![AgentSnap { id: a.id, pos: a.pos, vel: a.vel }] + resolve_spec(
                    agents,
                    ids.drop_first(),
                )) + tail);
            },
            None => {},
        }
    }
}

/// Resolution never yields more snapshots than ids, and every snapshot's
/// position and velocity are those of some stored agent.
proof fn lemma_resolve_bounds(agents: Seq<AgentState>, ids: Seq<u64>, bp: int, bv: int)
    requires
        forall|i: int|
            0 <= i < agents.len() ==> -bp <= (#[trigger] agents[i]).pos.x <= bp && -bp
                <= agents[i].pos.y <= bp,
        forall|i: int|
            0 <= i < agents.len() ==> -bv <= (#[trigger] agents[i]).vel.x <= bv && -bv
                <= agents[i].vel.y <= bv,
    ensures
        resolve_spec(agents, ids).len() <= ids.len(),
        crate::flock::snaps_pos_bounded(resolve_spec(agents, ids), bp),
        crate::flock::snaps_vel_bounded(resolve_spec(agents, ids), bv),
    decreases ids.len(),
{
    if ids.len() > 0 {
        lemma_resolve_bounds(agents, ids.drop_first(), bp, bv);
        let rest = resolve_spec(agents, ids.drop_first());
        match lookup_spec(agents, ids[0]) {
            Some(a) => {
                lemma_lookup_is_agent(agents, ids[0]);
                let j = choose|j: int| 0 <= j < agents.len() && agents[j] == a;
                assert(-bp <= a.pos.x <= bp && -bp <= a.pos.y <= bp);
                assert(-bv <= a.vel.x <= bv && -bv <= a.vel.y <= bv);
                let s = resolve_spec(agents, ids);
                assert(forall|m: int|
                    0 < m < s.len() ==> #[trigger] s[m] == rest[m - 1]);
            },
            None => {},
        }
    }
}

/// Resolve candidate ids to agent snapshots.
fn resolve_candidates(agents: &Vec<AgentState>, ids: &Vec<u64>) -> (r: Vec<AgentSnap>)
    ensures
        r@ == resolve_spec(agents@, ids@),
{
    let mut r: Vec<AgentSnap> = Vec::new();
    let n = ids.len();
    let mut i: usize = 0;
    proof {
        assert(ids@.take(0) =~= Seq::<u64>::empty());
    }
    while i < n
        invariant
            n == ids@.len(),
            i <= n,
            r@ == resolve_spec(agents@, ids@.take(i as int)),
        decreases n - i,
    {
        match lookup_agent(agents, ids[i]) {
            Some(a) => {
                r.push(AgentSnap { id: a.id, pos: a.pos, vel: a.vel });
            },
            None => {},
        }
        proof {
            lemma_resolve_push(agents@, ids@.take(i as int), ids@[i as int]);
            assert(ids@.take(i + 1) =~= ids@.take(i as int).push(ids@[i as int]));
            match lookup_spec(agents@, ids@[i as int]) {
                Some(a) => {
                    assert(r@ =~= resolve_spec(agents@, ids@.take(i as int)) + seq![
                        AgentSnap { id: a.id, pos: a.pos, vel: a.vel },
                    ]);
                },
                None => {
                    assert(r@ =~= resolve_spec(agents@, ids@.take(i as int))
                        + Seq::<AgentSnap>::empty());
                },
            }
        }
        i = i + 1;
    }
    proof {
        assert(ids@.take(n as int) =~= ids@);
    }
    r
}

impl World {
    /// The candidate ids the index yields for agent `i`'s alignment query.
    pub open spec fn candidate_ids_spec(self, i: int) -> Seq<u64> {
        self.index_spec().flat_members(
            block_keys(
                cell_key(self.config_spec().cell_size as int, self.agents_spec()[i].pos),
                ring_count(
                    self.config_spec().cell_size as int,
                    self.agents_spec()[i].align_radius as int,
                ),
            ),
        )
    }

    /// What the query phase stores for agent `i`: the accumulators over the
    /// snapshots of its resolved candidates.
    pub open spec fn behavior_acc_model(self, i: int) -> AccumModel {
        accum_spec(
            self.agents_spec()[i].id,
            self.agents_spec()[i].pos,
            self.agents_spec()[i].avoid_radius as int,
            self.agents_spec()[i].align_radius as int,
            resolve_spec(self.agents_spec(), self.candidate_ids_spec(i)),
        )
    }

    /// No agent sees more candidates than there are agents: the keys of a
    /// query block are pairwise distinct, a synchronized index registers no
    /// id under two cells, and every registered id belongs to an agent.
    pub proof fn lemma_candidate_ids_len(self, i: int)
        requires
            self.wf(),
            0 <= i < self.agents_spec().len(),
        ensures
            self.candidate_ids_spec(i).len() <= self.agents_spec().len(),
    {
        broadcast use vstd::seq_lib::seq_to_set_is_finite;

        let cs = self.config_spec().cell_size as int;
        let k = cell_key(cs, self.agents_spec()[i].pos);
        let radius = self.agents_spec()[i].align_radius as int;
        let rr = ring_count(cs, radius);
        crate::voxel::lemma_ring_count_bounds(cs, radius);
        crate::voxel::lemma_block_keys_no_duplicates(k, rr);
        let keys = block_keys(k, rr);
        assert forall|k1: (int, int), k2: (int, int), e: u64| #[trigger] self.index_spec().member(
            k1,
            e,
        ) && #[trigger] self.index_spec().member(k2, e) implies k1 == k2 by {
            let i1 = choose|j: int|
                0 <= j < self.agents_spec().len() && (#[trigger] self.agents_spec()[j]).id == e
                    && k1 == cell_key(cs, self.agents_spec()[j].pos);
            let i2 = choose|j: int|
                0 <= j < self.agents_spec().len() && (#[trigger] self.agents_spec()[j]).id == e
                    && k2 == cell_key(cs, self.agents_spec()[j].pos);
            if i1 != i2 {
                assert(self.agents_spec()[i1].id != self.agents_spec()[i2].id);
            }
        }
        self.index_spec().lemma_flat_members_no_duplicates(keys);
        let cands = self.candidate_ids_spec(i);
        cands.unique_seq_to_set();
        let idseq = Seq::new(self.agents_spec().len(), |j: int| self.agents_spec()[j].id);
        assert(idseq.no_duplicates()) by {
            assert forall|a: int, b: int| 0 <= a < b < idseq.len() implies idseq[a] != idseq[b] by {
                assert(self.agents_spec()[a].id != self.agents_spec()[b].id);
            }
        }
        idseq.unique_seq_to_set();
        assert forall|e: u64| cands.to_set().contains(e) implies idseq.to_set().contains(e) by {
            assert(cands.contains(e));
            self.index_spec().lemma_flat_members_inv(keys, e);
            let m = choose|m: int|
                0 <= m < keys.len() && self.index_spec().members_at(#[trigger] keys[m]).contains(e);
            assert(self.index_spec().member(keys[m], e));
            let j = choose|j: int|
                0 <= j < self.agents_spec().len() && (#[trigger] self.agents_spec()[j]).id == e && keys[m]
                    == cell_key(cs, self.agents_spec()[j].pos);
            assert(idseq[j] == e);
            assert(idseq.contains(e));
        }
        assert(cands.to_set().subset_of(idseq.to_set()));
        vstd::set_lib::lemma_len_subset(cands.to_set(), idseq.to_set());
    }

    /// Whether two worlds differ at most in their agents' accumulators and
    /// velocities, with ids, positions and radii untouched.
    spec fn same_skeleton(pre: World, post: World) -> bool {
        &&& post.config == pre.config
        &&& post.next_id == pre.next_id
        &&& post.index == pre.index
        &&& post.agents@.len() == pre.agents@.len()
        &&& forall|j: int|
            0 <= j < pre.agents@.len() ==> (#[trigger] post.agents@[j]).id == pre.agents@[j].id
                && post.agents@[j].pos == pre.agents@[j].pos && post.agents@[j].avoid_radius
                == pre.agents@[j].avoid_radius && post.agents@[j].align_radius
                == pre.agents@[j].align_radius
    }

    /// A world that keeps its skeleton keeps its well-formedness.
    proof fn lemma_wf_same_skeleton(pre: World, post: World)
        requires
            pre.wf(),
            Self::same_skeleton(pre, post),
        ensures
            post.wf(),
    {
        let cs = pre.config_spec().cell_size as int;
        assert forall|k: (int, int), e: u64| #[trigger] post.index_spec().member(k, e)
            <==> exists|j: int|
                0 <= j < post.agents_spec().len() && (#[trigger] post.agents_spec()[j]).id == e
                    && k == cell_key(cs, post.agents_spec()[j].pos) by {
            if post.index_spec().member(k, e) {
                let j = choose|j: int|
                    0 <= j < pre.agents_spec().len() && (#[trigger] pre.agents_spec()[j]).id == e
                        && k == cell_key(cs, pre.agents_spec()[j].pos);
                assert(post.agents_spec()[j].id == e && k == cell_key(
                    cs,
                    post.agents_spec()[j].pos,
                ));
            }
            if exists|j: int|
                0 <= j < post.agents_spec().len() && (#[trigger] post.agents_spec()[j]).id == e && k
                    == cell_key(cs, post.agents_spec()[j].pos) {
                let j = choose|j: int|
                    0 <= j < post.agents_spec().len() && (#[trigger] post.agents_spec()[j]).id == e
                        && k == cell_key(cs, post.agents_spec()[j].pos);
                assert(pre.agents_spec()[j].id == e && k == cell_key(
                    cs,
                    pre.agents_spec()[j].pos,
                ));
                assert(pre.index_spec().member(k, e));
            }
        }
    }

    /// The query phase: compute every agent's accumulators from the pre-tick
    /// snapshot of all agents and the index, then store them. Positions,
    /// velocities and the index itself are untouched.
    pub fn behavior(&mut self)
        requires
            old(self).wf(),
            old(self).pos_bounded(MAX_COORD as int),
            old(self).vels_bounded(VEL_LIMIT as int),
        ensures
            final(self).wf(),
            final(self).config_spec() == old(self).config_spec(),
            final(self).next_id_spec() == old(self).next_id_spec(),
            final(self).index_spec() == old(self).index_spec(),
            final(self).agents_spec().len() == old(self).agents_spec().len(),
            forall|i: int|
                0 <= i < old(self).agents_spec().len() ==> {
                    let a0 = old(self).agents_spec()[i];
                    let a1 = #[trigger] final(self).agents_spec()[i];
                    a1.id == a0.id && a1.pos == a0.pos && a1.vel == a0.vel && a1.avoid_radius
                        == a0.avoid_radius && a1.align_radius == a0.align_radius
                        && a1.acc.matches_model(old(self).behavior_acc_model(i))
                },
    {
        let ghost pre = *self;
        let n = self.agents.len();
        let mut accs: Vec<Accum> = Vec::new();
        let mut i: usize = 0;
        while i < n
            invariant
                *self == pre,
                pre.wf(),
                pre.pos_bounded(MAX_COORD as int),
                pre.vels_bounded(VEL_LIMIT as int),
                n == self.agents@.len(),
                i <= n,
                accs@.len() == i,
                forall|j: int|
                    0 <= j < i ==> (#[trigger] accs@[j]).matches_model(pre.behavior_acc_model(j)),
            decreases n - i,
        {
            let a = self.agents[i];
            proof {
                let cs = self.config_spec().cell_size as int;
                crate::num::lemma_div_floor_bounds(a.pos.x as int, cs);
                crate::num::lemma_div_floor_bounds(a.pos.y as int, cs);
                crate::voxel::lemma_ring_count_bounds(cs, a.align_radius as int);
                pre.lemma_candidate_ids_len(i as int);
            }
            let cands = self.index.candidates_near(a.pos, a.align_radius);
            proof {
                lemma_resolve_bounds(
                    self.agents@,
                    cands@,
                    MAX_COORD as int,
                    VEL_LIMIT as int,
                );
            }
            let snaps = resolve_candidates(&self.agents, &cands);
            let acc = accumulate(a.id, a.pos, a.avoid_radius, a.align_radius, &snaps);
            accs.push(acc);
            i = i + 1;
        }
        let mut j: usize = 0;
        while j < n
            invariant
                pre.wf(),
                n == self.agents@.len(),
                n == pre.agents@.len(),
                j <= n,
                accs@.len() == n,
                self.config == pre.config,
                self.next_id == pre.next_id,
                self.index == pre.index,
                forall|m: int|
                    0 <= m < n ==> (#[trigger] accs@[m]).matches_model(pre.behavior_acc_model(m)),
                forall|m: int|
                    j <= m < n ==> #[trigger] self.agents@[m] == pre.agents@[m],
                forall|m: int|
                    0 <= m < j ==> #[trigger] self.agents@[m] == (AgentState {
                        acc: accs@[m],
                        ..pre.agents@[m]
                    }),
            decreases n - j,
        {
            let acc = accs[j];
            let ag = &mut self.agents[j];
            ag.acc = acc;
            j = j + 1;
        }
        proof {
            Self::lemma_wf_same_skeleton(pre, *self);
        }
    }

    /// Move agent `i` to a new position, relocating its index entry, and
    /// store its new velocity and accumulators. The step every mutating
    /// phase goes through; it is what keeps membership and position
    /// synchronized.
    fn relocate_agent(&mut self, i: usize, new_pos: Vec2i, new_vel: Vec2i, new_acc: Accum)
        requires
            old(self).wf(),
            i < old(self).agents_spec().len(),
        ensures
            final(self).wf(),
            final(self).config_spec() == old(self).config_spec(),
            final(self).next_id_spec() == old(self).next_id_spec(),
            final(self).agents_spec() == old(self).agents_spec().update(
                i as int,
                AgentState {
                    pos: new_pos,
                    vel: new_vel,
                    acc: new_acc,
                    ..old(self).agents_spec()[i as int]
                },
            ),
    {
        let ghost pre = *self;
        let a = self.agents[i];
        self.index.update_entity(a.pos, new_pos, a.id);
        let ag = &mut self.agents[i];
        ag.pos = new_pos;
        ag.vel = new_vel;
        ag.acc = new_acc;
        proof {
            let cs = pre.config_spec().cell_size as int;
            let k_old = cell_key(cs, a.pos);
            let k_new = cell_key(cs, new_pos);
            let n = pre.agents_spec().len() as int;
            assert(pre.index_spec().key_of(a.pos) == k_old);
            assert(pre.index_spec().key_of(new_pos) == k_new);
            assert forall|k: (int, int)| #[trigger] pre.index_spec().member(k, a.id) <==> k
                == k_old by {
                if pre.index_spec().member(k, a.id) {
                    let j = choose|j: int|
                        0 <= j < pre.agents_spec().len() && (#[trigger] pre.agents_spec()[j]).id
                            == a.id && k == cell_key(cs, pre.agents_spec()[j].pos);
                    assert(j == i as int);
                }
                if k == k_old {
                    assert(pre.agents_spec()[i as int].id == a.id && k == cell_key(
                        cs,
                        pre.agents_spec()[i as int].pos,
                    ));
                }
            }
            assert forall|k: (int, int), e: u64| #[trigger] self.index_spec().member(k, e)
                <==> exists|j: int|
                    0 <= j < self.agents_spec().len() && (#[trigger] self.agents_spec()[j]).id == e
                        && k == cell_key(cs, self.agents_spec()[j].pos) by {
                if e == a.id {
                    assert(self.index_spec().member(k, e) <==> k == k_new) by {
                        if k_old == k_new {
                            assert(self.index_spec() == pre.index_spec());
                        }
                    }
                    if self.index_spec().member(k, e) {
                        assert(self.agents_spec()[i as int].id == e && k == cell_key(
                            cs,
                            self.agents_spec()[i as int].pos,
                        ));
                    }
                    if exists|j: int|
                        0 <= j < self.agents_spec().len() && (#[trigger] self.agents_spec()[j]).id
                            == e && k == cell_key(cs, self.agents_spec()[j].pos) {
                        let j = choose|j: int|
                            0 <= j < self.agents_spec().len() && (
                            #[trigger] self.agents_spec()[j]).id == e && k == cell_key(
                                cs,
                                self.agents_spec()[j].pos,
                            );
                        if j != i as int {
                            assert(pre.agents_spec()[j].id == e);
                            assert(false);
                        }
                        assert(k == k_new);
                    }
                } else {
                    assert(self.index_spec().member(k, e) == pre.index_spec().member(k, e));
                    if self.index_spec().member(k, e) {
                        let j = choose|j: int|
                            0 <= j < pre.agents_spec().len() && (#[trigger] pre.agents_spec()[j]).id
                                == e && k == cell_key(cs, pre.agents_spec()[j].pos);
                        assert(j != i as int);
                        assert(self.agents_spec()[j].id == e && k == cell_key(
                            cs,
                            self.agents_spec()[j].pos,
                        ));
                    }
                    if exists|j: int|
                        0 <= j < self.agents_spec().len() && (#[trigger] self.agents_spec()[j]).id
                            == e && k == cell_key(cs, self.agents_spec()[j].pos) {
                        let j = choose|j: int|
                            0 <= j < self.agents_spec().len() && (
                            #[trigger] self.agents_spec()[j]).id == e && k == cell_key(
                                cs,
                                self.agents_spec()[j].pos,
                            );
                        assert(j != i as int);
                        assert(pre.agents_spec()[j].id == e && k == cell_key(
                            cs,
                            pre.agents_spec()[j].pos,
                        ));
                        assert(pre.index_spec().member(k, e));
                    }
                }
            }
        }
    }

    /// The boundary-correction phase: nudge the velocity of every agent
    /// past a wall back toward the inside. Positions and the index are
    /// untouched.
    pub fn avoid_boundary(&mut self, half_w: i64, half_h: i64)
        requires
            old(self).wf(),
            old(self).vels_bounded(VEL_LIMIT as int),
            0 <= half_w,
            0 <= half_h,
        ensures
            final(self).wf(),
            final(self).config_spec() == old(self).config_spec(),
            final(self).next_id_spec() == old(self).next_id_spec(),
            final(self).index_spec() == old(self).index_spec(),
            final(self).agents_spec().len() == old(self).agents_spec().len(),
            forall|i: int|
                0 <= i < old(self).agents_spec().len() ==> {
                    let a0 = old(self).agents_spec()[i];
                    let a1 = #[trigger] final(self).agents_spec()[i];
                    a1 == (AgentState { vel: a1.vel, ..a0 }) && (a1.vel.x as int, a1.vel.y as int)
                        == crate::flock::steer_spec(
                        a0.vel,
                        a0.pos,
                        half_w as int,
                        half_h as int,
                        old(self).config_spec().turn_factor as int,
                    )
                },
            final(self).vels_bounded(VEL_PHASE_LIMIT as int),
    {
        let ghost pre = *self;
        let n = self.agents.len();
        let mut i: usize = 0;
        while i < n
            invariant
                pre.wf(),
                pre.vels_bounded(VEL_LIMIT as int),
                0 <= half_w,
                0 <= half_h,
                n == self.agents@.len(),
                n == pre.agents@.len(),
                i <= n,
                self.config == pre.config,
                self.next_id == pre.next_id,
                self.index == pre.index,
                forall|m: int| i <= m < n ==> #[trigger] self.agents@[m] == pre.agents@[m],
                forall|m: int|
                    0 <= m < i ==> {
                        let a0 = pre.agents@[m];
                        let a1 = #[trigger] self.agents@[m];
                        a1 == (AgentState { vel: a1.vel, ..a0 }) && (
                        a1.vel.x as int,
                        a1.vel.y as int,
                        ) == crate::flock::steer_spec(
                            a0.vel,
                            a0.pos,
                            half_w as int,
                            half_h as int,
                            pre.config_spec().turn_factor as int,
                        ) && -VEL_PHASE_LIMIT <= a1.vel.x <= VEL_PHASE_LIMIT && -VEL_PHASE_LIMIT
                            <= a1.vel.y <= VEL_PHASE_LIMIT
                    },
            decreases n - i,
        {
            let a = self.agents[i];
            let v = crate::flock::steer_at_boundary(
                a.vel,
                a.pos,
                half_w,
                half_h,
                self.config.turn_factor,
            );
            let ag = &mut self.agents[i];
            ag.vel = v;
            i = i + 1;
        }
        proof {
            Self::lemma_wf_same_skeleton(pre, *self);
        }
    }

    /// The wraparound alternative to the soft boundary: an agent past a
    /// wall reappears at the opposite wall, and its index entry moves with
    /// it.
    pub fn periodic_boundary(&mut self, half_w: i64, half_h: i64)
        requires
            old(self).wf(),
            0 <= half_w,
            0 <= half_h,
        ensures
            final(self).wf(),
            final(self).config_spec() == old(self).config_spec(),
            final(self).next_id_spec() == old(self).next_id_spec(),
            final(self).agents_spec().len() == old(self).agents_spec().len(),
            forall|i: int|
                0 <= i < old(self).agents_spec().len() ==> {
                    let a0 = old(self).agents_spec()[i];
                    let a1 = #[trigger] final(self).agents_spec()[i];
                    a1 == (AgentState { pos: a1.pos, ..a0 }) && (a1.pos.x as int, a1.pos.y as int)
                        == crate::flock::wrap_spec(a0.pos, half_w as int, half_h as int)
                },
    {
        let ghost pre = *self;
        let n = self.agents.len();
        let mut i: usize = 0;
        while i < n
            invariant
                0 <= half_w,
                0 <= half_h,
                self.wf(),
                n == self.agents@.len(),
                n == pre.agents@.len(),
                i <= n,
                self.config == pre.config,
                self.next_id == pre.next_id,
                forall|m: int| i <= m < n ==> #[trigger] self.agents@[m] == pre.agents@[m],
                forall|m: int|
                    0 <= m < i ==> {
                        let a0 = pre.agents@[m];
                        let a1 = #[trigger] self.agents@[m];
                        a1 == (AgentState { pos: a1.pos, ..a0 }) && (
                        a1.pos.x as int,
                        a1.pos.y as int,
                        ) == crate::flock::wrap_spec(a0.pos, half_w as int, half_h as int)
                    },
            decreases n - i,
        {
            let a = self.agents[i];
            let p = crate::flock::wrap_position(a.pos, half_w, half_h);
            self.relocate_agent(i, p, a.vel, a.acc);
            i = i + 1;
        }
    }

    /// Every stored accumulator is within the machine caps.
    pub open spec fn accs_in_range(self) -> bool {
        forall|i: int|
            0 <= i < self.agents_spec().len() ==> crate::flock::accum_in_range(
                (#[trigger] self.agents_spec()[i]).acc,
            )
    }

    /// The integration phase: apply every agent's accumulators to its
    /// velocity, clamp its speed into the configured band, advance its
    /// position, relocate its index entry, and reset its accumulators.
    pub fn integrate(&mut self, dt: i64)
        requires
            old(self).wf(),
            old(self).pos_bounded(MAX_COORD as int),
            old(self).vels_bounded(VEL_PHASE_LIMIT as int),
            old(self).accs_in_range(),
            0 <= dt <= crate::flock::MAX_DT,
        ensures
            final(self).wf(),
            final(self).config_spec() == old(self).config_spec(),
            final(self).next_id_spec() == old(self).next_id_spec(),
            final(self).agents_spec().len() == old(self).agents_spec().len(),
            forall|i: int|
                0 <= i < old(self).agents_spec().len() ==> {
                    let a0 = old(self).agents_spec()[i];
                    let a1 = #[trigger] final(self).agents_spec()[i];
                    let v = crate::flock::new_velocity_spec(
                        old(self).config_spec(),
                        a0.vel,
                        a0.pos,
                        a0.acc.model(),
                    );
                    a1 == (AgentState { pos: a1.pos, vel: a1.vel, acc: zero_accum(), ..a0 }) && (
                    a1.vel.x as int,
                    a1.vel.y as int,
                    ) == v && (a1.pos.x as int, a1.pos.y as int)
                        == crate::flock::step_position_spec(a0.pos, v.0, v.1, dt as int)
                },
            final(self).vels_bounded(old(self).config_spec().max_speed as int),
            final(self).pos_bounded(2 * (MAX_COORD as int) + 1),
    {
        let ghost pre = *self;
        let n = self.agents.len();
        let mut i: usize = 0;
        while i < n
            invariant
                pre.wf(),
                pre.pos_bounded(MAX_COORD as int),
                pre.vels_bounded(VEL_PHASE_LIMIT as int),
                pre.accs_in_range(),
                0 <= dt <= crate::flock::MAX_DT,
                self.wf(),
                n == self.agents@.len(),
                n == pre.agents@.len(),
                i <= n,
                self.config == pre.config,
                self.next_id == pre.next_id,
                forall|m: int| i <= m < n ==> #[trigger] self.agents@[m] == pre.agents@[m],
                forall|m: int|
                    0 <= m < i ==> {
                        let a0 = pre.agents@[m];
                        let a1 = #[trigger] self.agents@[m];
                        let v = crate::flock::new_velocity_spec(
                            pre.config_spec(),
                            a0.vel,
                            a0.pos,
                            a0.acc.model(),
                        );
                        a1 == (AgentState { pos: a1.pos, vel: a1.vel, acc: zero_accum(), ..a0 })
                            && (a1.vel.x as int, a1.vel.y as int) == v && (
                        a1.pos.x as int,
                        a1.pos.y as int,
                        ) == crate::flock::step_position_spec(a0.pos, v.0, v.1, dt as int)
                            && -pre.config_spec().max_speed <= a1.vel.x
                            <= pre.config_spec().max_speed && -pre.config_spec().max_speed
                            <= a1.vel.y <= pre.config_spec().max_speed && -(2 * (MAX_COORD as int)
                            + 1) <= a1.pos.x <= 2 * (MAX_COORD as int) + 1 && -(2 * (
                        MAX_COORD as int) + 1) <= a1.pos.y <= 2 * (MAX_COORD as int) + 1
                    },
            decreases n - i,
        {
            let a = self.agents[i];
            let v = crate::flock::step_velocity(self.config, a.vel, a.pos, a.acc);
            let p = crate::flock::step_position(a.pos, v, dt);
            self.relocate_agent(
                i,
                p,
                v,
                Accum {
                    separation: Vec2i { x: 0, y: 0 },
                    alignment: Vec2i { x: 0, y: 0 },
                    cohesion: Vec2i { x: 0, y: 0 },
                    neighbor_count: 0,
                },
            );
            i = i + 1;
        }
    }

    /// Where one tick takes agent `i`, from the pre-tick state of the whole
    /// world: accumulators from the query phase, the boundary nudge on the
    /// velocity, the steering update with its speed clamp, and the position
    /// step, with the accumulators reset at the end.
    pub open spec fn tick_agent_spec(self, i: int, dt: int, half_w: int, half_h: int) -> AgentState {
        let a0 = self.agents_spec()[i];
        let m = self.behavior_acc_model(i);
        let sv = crate::flock::steer_spec(
            a0.vel,
            a0.pos,
            half_w,
            half_h,
            self.config_spec().turn_factor as int,
        );
        let v = crate::flock::new_velocity_spec(
            self.config_spec(),
            Vec2i { x: sv.0 as i64, y: sv.1 as i64 },
            a0.pos,
            m,
        );
        let p = crate::flock::step_position_spec(a0.pos, v.0, v.1, dt);
        AgentState {
            pos: Vec2i { x: p.0 as i64, y: p.1 as i64 },
            vel: Vec2i { x: v.0 as i64, y: v.1 as i64 },
            acc: zero_accum(),
            ..a0
        }
    }

    /// The per-tick entry point: the query phase over the pre-tick
    /// snapshot, the boundary correction, then the integration phase, in
    /// the order the phases are scheduled.
    pub fn tick(&mut self, dt: i64, half_w: i64, half_h: i64)
        requires
            old(self).wf(),
            old(self).pos_bounded(MAX_COORD as int),
            old(self).vels_bounded(VEL_LIMIT as int),
            0 <= dt <= crate::flock::MAX_DT,
            0 <= half_w,
            0 <= half_h,
        ensures
            final(self).wf(),
            final(self).config_spec() == old(self).config_spec(),
            final(self).next_id_spec() == old(self).next_id_spec(),
            final(self).agents_spec().len() == old(self).agents_spec().len(),
            forall|i: int|
                0 <= i < old(self).agents_spec().len() ==> #[trigger] final(self).agents_spec()[i]
                    == old(self).tick_agent_spec(i, dt as int, half_w as int, half_h as int),
            final(self).vels_bounded(old(self).config_spec().max_speed as int),
            final(self).pos_bounded(2 * (MAX_COORD as int) + 1),
    {
        let ghost s0 = *self;
        self.behavior();
        let ghost s1 = *self;
        proof {
            assert forall|i: int|
                0 <= i < s1.agents_spec().len() implies -(VEL_LIMIT as int) <= (
            #[trigger] s1.agents_spec()[i]).vel.x <= VEL_LIMIT as int && -(VEL_LIMIT as int)
                <= s1.agents_spec()[i].vel.y <= VEL_LIMIT as int by {
                assert(s1.agents_spec()[i].vel == s0.agents_spec()[i].vel);
                assert(s0.agents_spec()[i].vel.x >= -VEL_LIMIT);
            }
        }
        self.avoid_boundary(half_w, half_h);
        let ghost s2 = *self;
        proof {
            assert forall|i: int|
                0 <= i < s2.agents_spec().len() implies -(MAX_COORD as int) <= (
            #[trigger] s2.agents_spec()[i]).pos.x <= MAX_COORD as int && -(MAX_COORD as int)
                <= s2.agents_spec()[i].pos.y <= MAX_COORD as int by {
                assert(s2.agents_spec()[i] == (AgentState {
                    vel: s2.agents_spec()[i].vel,
                    ..s1.agents_spec()[i]
                }));
                assert(s1.agents_spec()[i].pos == s0.agents_spec()[i].pos);
                assert(s0.agents_spec()[i].pos.x >= -MAX_COORD);
            }
            assert forall|i: int|
                0 <= i < s2.agents_spec().len() implies crate::flock::accum_in_range(
                (#[trigger] s2.agents_spec()[i]).acc,
            ) by {
                assert(s2.agents_spec()[i] == (AgentState {
                    vel: s2.agents_spec()[i].vel,
                    ..s1.agents_spec()[i]
                }));
                let acc = s1.agents_spec()[i].acc;
                let m = s0.behavior_acc_model(i);
                assert(acc.matches_model(m));
                let cands = s0.candidate_ids_spec(i);
                let ns = resolve_spec(s0.agents_spec(), cands);
                s0.lemma_candidate_ids_len(i);
                lemma_resolve_bounds(s0.agents_spec(), cands, MAX_COORD as int, VEL_LIMIT as int);
                crate::flock::lemma_accum_bounds(
                    s0.agents_spec()[i].id,
                    s0.agents_spec()[i].pos,
                    s0.agents_spec()[i].avoid_radius as int,
                    s0.agents_spec()[i].align_radius as int,
                    ns,
                );
                assert(ns.len() * (s0.agents_spec()[i].avoid_radius as int) <= (MAX_AGENTS
                    * MAX_MAGNITUDE) as int) by (nonlinear_arith)
                    requires
                        0 <= ns.len() <= (MAX_AGENTS as int),
                        0 <= s0.agents_spec()[i].avoid_radius <= MAX_MAGNITUDE,
                ;
            }
        }
        self.integrate(dt);
        proof {
            assert forall|i: int|
                0 <= i < s0.agents_spec().len() implies #[trigger] self.agents_spec()[i]
                    == s0.tick_agent_spec(i, dt as int, half_w as int, half_h as int) by {
                let a0 = s0.agents_spec()[i];
                let b = s1.agents_spec()[i];
                let c = s2.agents_spec()[i];
                let a1 = self.agents_spec()[i];
                let m = s0.behavior_acc_model(i);
                let sv = crate::flock::steer_spec(
                    a0.vel,
                    a0.pos,
                    half_w as int,
                    half_h as int,
                    s0.config_spec().turn_factor as int,
                );
                assert(b.acc.matches_model(m));
                assert(c == (AgentState { vel: c.vel, ..b }));
                assert((c.vel.x as int, c.vel.y as int) == sv);
                assert(c.vel == (Vec2i { x: sv.0 as i64, y: sv.1 as i64 }));
                assert(c.acc.model() == m);
                let v = crate::flock::new_velocity_spec(s0.config_spec(), c.vel, c.pos, m);
                assert((a1.vel.x as int, a1.vel.y as int) == v);
                assert((a1.pos.x as int, a1.pos.y as int) == crate::flock::step_position_spec(
                    c.pos,
                    v.0,
                    v.1,
                    dt as int,
                ));
                assert(a1 == (AgentState { pos: a1.pos, vel: a1.vel, acc: zero_accum(), ..c }));
            }
        }
    }

    /// An isolated agent drifts in a straight line at constant speed: with
    /// empty accumulators, a position inside the boundary and a speed
    /// already inside the configured band, a tick leaves the velocity as it
    /// is and advances the position by exactly that velocity over `dt`.
    pub proof fn lemma_isolated_straight_line(self, i: int, dt: int, half_w: int, half_h: int)
        requires
            self.wf(),
            0 <= i < self.agents_spec().len(),
            self.behavior_acc_model(i) == (AccumModel {
                sep_x: 0,
                sep_y: 0,
                ali_x: 0,
                ali_y: 0,
                coh_x: 0,
                coh_y: 0,
                count: 0,
            }),
            -half_w <= self.agents_spec()[i].pos.x <= half_w,
            -half_h <= self.agents_spec()[i].pos.y <= half_h,
            -MAX_COORD <= self.agents_spec()[i].pos.x <= MAX_COORD,
            -MAX_COORD <= self.agents_spec()[i].pos.y <= MAX_COORD,
            0 <= dt <= crate::flock::MAX_DT,
            self.config_spec().min_speed * self.config_spec().min_speed <= (
            self.agents_spec()[i].vel.x as int) * (self.agents_spec()[i].vel.x as int) + (
            self.agents_spec()[i].vel.y as int) * (self.agents_spec()[i].vel.y as int)
                <= self.config_spec().max_speed * self.config_spec().max_speed,
        ensures
            self.tick_agent_spec(i, dt, half_w, half_h).vel == self.agents_spec()[i].vel,
            self.tick_agent_spec(i, dt, half_w, half_h).pos.x as int == self.agents_spec()[i].pos.x
                + crate::num::div_trunc(self.agents_spec()[i].vel.x * dt, crate::flock::MILLI as int),
            self.tick_agent_spec(i, dt, half_w, half_h).pos.y as int == self.agents_spec()[i].pos.y
                + crate::num::div_trunc(self.agents_spec()[i].vel.y * dt, crate::flock::MILLI as int),
    {
        let a0 = self.agents_spec()[i];
        let cfg = self.config_spec();
        let m = self.behavior_acc_model(i);
        let sv = crate::flock::steer_spec(a0.vel, a0.pos, half_w, half_h, cfg.turn_factor as int);
        assert(sv == (a0.vel.x as int, a0.vel.y as int));
        let svv = Vec2i { x: sv.0 as i64, y: sv.1 as i64 };
        assert(svv == a0.vel);
        crate::num::lemma_div_floor_bounds(0, crate::flock::MILLI as int);
        assert(crate::num::div_trunc(0 * cfg.separation_factor, crate::flock::MILLI as int) == 0);
        let u = crate::flock::update_velocity_spec(cfg, svv, a0.pos, m);
        assert(u == (a0.vel.x as int, a0.vel.y as int));
        let n2 = u.0 * u.0 + u.1 * u.1;
        assert(n2 >= cfg.min_speed * cfg.min_speed);
        assert(cfg.min_speed * cfg.min_speed >= 1) by (nonlinear_arith)
            requires
                cfg.min_speed >= 1,
        ;
        let v = crate::flock::new_velocity_spec(cfg, svv, a0.pos, m);
        assert(v == u);
        assert(-(MAX_MAGNITUDE as int) <= a0.vel.x <= MAX_MAGNITUDE as int && -(
        MAX_MAGNITUDE as int) <= a0.vel.y <= MAX_MAGNITUDE as int) by (nonlinear_arith)
            requires
                (a0.vel.x as int) * (a0.vel.x as int) + (a0.vel.y as int) * (a0.vel.y as int)
                    <= cfg.max_speed * cfg.max_speed,
                1 <= cfg.max_speed <= MAX_MAGNITUDE,
        ;
        crate::num::lemma_mul_div_trunc_mag(
            a0.vel.x as int,
            dt,
            crate::flock::MILLI as int,
            MAX_MAGNITUDE as int,
            crate::flock::MAX_DT as int,
        );
        crate::num::lemma_mul_div_trunc_mag(
            a0.vel.y as int,
            dt,
            crate::flock::MILLI as int,
            MAX_MAGNITUDE as int,
            crate::flock::MAX_DT as int,
        );
    }
}

} // verus!
