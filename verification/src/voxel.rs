//! The spatial index: a dynamic partition of the plane into fixed-size
//! square cells, mapping each occupied cell to the set of entity ids inside
//! it. Cells that lose their last member are pruned eagerly, so iteration
//! stays proportional to occupied space.

use crate::geom::{dist2_spec, Vec2i};
use vstd::arithmetic::div_mod::{
    lemma_fundamental_div_mod, lemma_fundamental_div_mod_converse,
    lemma_mod_division_less_than_divisor,
};
use vstd::prelude::*;

verus! {

/// The grid cell holding a point: componentwise floor of the coordinates
/// divided by the cell size.
pub open spec fn cell_key(cs: int, p: Vec2i) -> (int, int) {
    ((p.x as int) / cs, (p.y as int) / cs)
}

/// A stored cell key, widened for use in specifications.
pub open spec fn lift_key(q: (i64, i64)) -> (int, int) {
    (q.0 as int, q.1 as int)
}

/// A whole key sequence, widened for use in specifications.
pub open spec fn lift_keys(s: Seq<(i64, i64)>) -> Seq<(int, int)> {
    s.map_values(|q: (i64, i64)| lift_key(q))
}

/// How many rings of cells a query radius spans: the ceiling of
/// `radius / cs`.
pub open spec fn ring_count(cs: int, radius: int) -> int {
    (radius + cs - 1) / cs
}

/// The Moore neighborhood of a cell: the surrounding eight keys, the center
/// excluded, in row-major order.
pub open spec fn moore_keys_seq(k: (int, int)) -> Seq<(int, int)> {
    seq![
        (k.0 - 1, k.1 - 1),
        (k.0 - 1, k.1),
        (k.0 - 1, k.1 + 1),
        (k.0, k.1 - 1),
        (k.0, k.1 + 1),
        (k.0 + 1, k.1 - 1),
        (k.0 + 1, k.1),
        (k.0 + 1, k.1 + 1),
    ]
}

/// The `(2rr+1) x (2rr+1)` block of keys centered on `k`, the center
/// included, in row-major order.
pub open spec fn block_keys(k: (int, int), rr: int) -> Seq<(int, int)> {
    Seq::new(
        (((2 * rr + 1) * (2 * rr + 1)) as nat),
        |m: int| (k.0 - rr + m / (2 * rr + 1), k.1 - rr + m % (2 * rr + 1)),
    )
}

/// A ring count is never negative and never exceeds the radius.
pub proof fn lemma_ring_count_bounds(cs: int, radius: int)
    requires
        cs >= 1,
        radius >= 0,
    ensures
        0 <= ring_count(cs, radius) <= radius,
{
    crate::num::lemma_div_floor_bounds(radius + cs - 1, cs);
    assert(radius + cs - 1 < cs * (radius + 1)) by (nonlinear_arith)
        requires
            radius >= 0,
            cs >= 1,
    ;
    vstd::arithmetic::div_mod::lemma_multiply_divide_lt(radius + cs - 1, cs, radius + 1);
}

/// The keys of a block are pairwise distinct.
pub proof fn lemma_block_keys_no_duplicates(k: (int, int), rr: int)
    requires
        rr >= 0,
    ensures
        block_keys(k, rr).no_duplicates(),
{
    let w = 2 * rr + 1;
    let s = block_keys(k, rr);
    assert forall|a: int, b: int| 0 <= a < b < s.len() implies s[a] != s[b] by {
        if s[a] == s[b] {
            lemma_fundamental_div_mod(a, w);
            lemma_fundamental_div_mod(b, w);
        }
    }
}

/// One occupied cell: its key and the distinct entity ids located in it.
struct VoxelCell {
    key: (i64, i64),
    members: Vec<u64>,
}

impl VoxelCell {
    /// The cell sits at the (widened) key `k`.
    spec fn at(self, k: (int, int)) -> bool {
        self.key.0 == k.0 && self.key.1 == k.1
    }

    /// Non-empty, and no id listed twice.
    spec fn wf(self) -> bool {
        &&& self.members@.len() >= 1
        &&& forall|a: int, b: int|
            0 <= a < b < self.members@.len() ==> #[trigger] self.members@[a]
                != #[trigger] self.members@[b]
    }
}

/// The spatial index over moving 2D point entities.
pub struct VoxelHashMap {
    cell_size: i64,
    cells: Vec<VoxelCell>,
}

impl VoxelHashMap {
    /// Side length of one grid cell.
    pub closed spec fn cell_size_spec(self) -> int {
        self.cell_size as int
    }

    /// The key this index assigns to a position.
    pub open spec fn key_of(self, p: Vec2i) -> (int, int) {
        cell_key(self.cell_size_spec(), p)
    }

    /// Some cell with key `k` is present.
    pub closed spec fn occupied(self, k: (int, int)) -> bool {
        exists|i: int| 0 <= i < self.cells@.len() && (#[trigger] self.cells@[i]).at(k)
    }

    /// The ids registered under key `k`, in insertion order; empty when the
    /// cell is absent.
    pub closed spec fn members_at(self, k: (int, int)) -> Seq<u64> {
        if self.occupied(k) {
            let i = choose|i: int| 0 <= i < self.cells@.len() && (#[trigger] self.cells@[i]).at(k);
            self.cells@[i].members@
        } else {
            Seq::empty()
        }
    }

    /// `id` is registered under key `k`.
    pub open spec fn member(self, k: (int, int), id: u64) -> bool {
        self.members_at(k).contains(id)
    }

    /// How many ids are registered under key `k`.
    pub open spec fn count_at(self, k: (int, int)) -> nat {
        self.members_at(k).len()
    }

    /// How many occupied cells the index holds.
    pub closed spec fn num_cells_spec(self) -> nat {
        self.cells@.len()
    }

    /// A positive cell size, pairwise-distinct cell keys, and no cell empty
    /// or holding a duplicated id.
    pub closed spec fn wf(self) -> bool {
        &&& 1 <= self.cell_size
        &&& forall|i: int, j: int|
            0 <= i < j < self.cells@.len() ==> (#[trigger] self.cells@[i]).key != (
            #[trigger] self.cells@[j]).key
        &&& forall|i: int| 0 <= i < self.cells@.len() ==> (#[trigger] self.cells@[i]).wf()
    }

    /// Under `wf`, a cell found at index `i` is the one cell `members_at`
    /// speaks of.
    proof fn lemma_members_at_idx(self, i: int, k: (int, int))
        requires
            self.wf(),
            0 <= i < self.cells@.len(),
            self.cells@[i].at(k),
        ensures
            self.occupied(k),
            self.members_at(k) == self.cells@[i].members@,
    {
        assert(self.occupied(k));
        let j = choose|j: int| 0 <= j < self.cells@.len() && (#[trigger] self.cells@[j]).at(k);
        if i != j {
            assert(self.cells@[i].key == self.cells@[j].key);
        }
    }

    /// Replacing the members of the one cell at `kk` changes no other cell.
    proof fn lemma_update_at(pre: VoxelHashMap, post: VoxelHashMap, i: int, kk: (int, int))
        requires
            pre.wf(),
            post.cell_size == pre.cell_size,
            0 <= i < pre.cells@.len(),
            post.cells@.len() == pre.cells@.len(),
            post.cells@ == pre.cells@.update(i, post.cells@[i]),
            pre.cells@[i].at(kk),
            post.cells@[i].at(kk),
            post.cells@[i].wf(),
        ensures
            post.wf(),
            pre.occupied(kk),
            post.occupied(kk),
            pre.members_at(kk) == pre.cells@[i].members@,
            post.members_at(kk) == post.cells@[i].members@,
            forall|k: (int, int)| k != kk ==> post.members_at(k) == pre.members_at(k),
            forall|k: (int, int)| k != kk ==> (post.occupied(k) <==> pre.occupied(k)),
    {
        let n = pre.cells@.len() as int;
        assert(forall|j: int|
            0 <= j < n && j != i ==> #[trigger] post.cells@[j] == pre.cells@[j]);
        assert(post.cells@[i].key == pre.cells@[i].key);
        assert(post.wf());
        pre.lemma_members_at_idx(i, kk);
        post.lemma_members_at_idx(i, kk);
        assert forall|k: (int, int)| k != kk implies (post.occupied(k) <==> pre.occupied(k)) by {
            if post.occupied(k) {
                let j = choose|j: int|
                    0 <= j < post.cells@.len() && (#[trigger] post.cells@[j]).at(k);
                assert(j != i);
                assert(pre.cells@[j].at(k));
            }
            if pre.occupied(k) {
                let j = choose|j: int|
                    0 <= j < pre.cells@.len() && (#[trigger] pre.cells@[j]).at(k);
                assert(j != i);
                assert(post.cells@[j].at(k));
            }
        }
        assert forall|k: (int, int)| k != kk implies post.members_at(k) == pre.members_at(k) by {
            if pre.occupied(k) {
                let j = choose|j: int|
                    0 <= j < pre.cells@.len() && (#[trigger] pre.cells@[j]).at(k);
                assert(j != i);
                pre.lemma_members_at_idx(j, k);
                post.lemma_members_at_idx(j, k);
            }
        }
    }

    /// Appending a cell at a previously absent key changes no other cell.
    proof fn lemma_push_cell(pre: VoxelHashMap, post: VoxelHashMap, kk: (int, int))
        requires
            pre.wf(),
            post.cell_size == pre.cell_size,
            !pre.occupied(kk),
            post.cells@.len() == pre.cells@.len() + 1,
            post.cells@ == pre.cells@.push(post.cells@.last()),
            post.cells@.last().at(kk),
            post.cells@.last().wf(),
        ensures
            post.wf(),
            post.occupied(kk),
            post.members_at(kk) == post.cells@.last().members@,
            forall|k: (int, int)| k != kk ==> post.members_at(k) == pre.members_at(k),
            forall|k: (int, int)| k != kk ==> (post.occupied(k) <==> pre.occupied(k)),
    {
        let n = pre.cells@.len() as int;
        assert(forall|j: int| 0 <= j < n ==> #[trigger] post.cells@[j] == pre.cells@[j]);
        assert forall|j: int| 0 <= j < n implies (#[trigger] pre.cells@[j]).key
            != post.cells@[n].key by {
            if pre.cells@[j].key == post.cells@[n].key {
                assert(pre.cells@[j].at(kk));
            }
        }
        assert(post.wf());
        post.lemma_members_at_idx(n, kk);
        assert forall|k: (int, int)| k != kk implies (post.occupied(k) <==> pre.occupied(k)) by {
            if post.occupied(k) {
                let j = choose|j: int|
                    0 <= j < post.cells@.len() && (#[trigger] post.cells@[j]).at(k);
                if j == n {
                    assert(post.cells@[n].at(kk));
                    assert(k == kk);
                } else {
                    assert(pre.cells@[j].at(k));
                }
            }
            if pre.occupied(k) {
                let j = choose|j: int|
                    0 <= j < pre.cells@.len() && (#[trigger] pre.cells@[j]).at(k);
                assert(post.cells@[j].at(k));
            }
        }
        assert forall|k: (int, int)| k != kk implies post.members_at(k) == pre.members_at(k) by {
            if pre.occupied(k) {
                let j = choose|j: int|
                    0 <= j < pre.cells@.len() && (#[trigger] pre.cells@[j]).at(k);
                pre.lemma_members_at_idx(j, k);
                post.lemma_members_at_idx(j, k);
            }
        }
    }

    /// Dropping the one cell at `kk` changes no other cell.
    proof fn lemma_remove_cell_at(pre: VoxelHashMap, post: VoxelHashMap, i: int, kk: (int, int))
        requires
            pre.wf(),
            post.cell_size == pre.cell_size,
            0 <= i < pre.cells@.len(),
            pre.cells@[i].at(kk),
            post.cells@ == pre.cells@.update(i, pre.cells@.last()).drop_last(),
        ensures
            post.wf(),
            !post.occupied(kk),
            forall|k: (int, int)| k != kk ==> post.members_at(k) == pre.members_at(k),
            forall|k: (int, int)| k != kk ==> (post.occupied(k) <==> pre.occupied(k)),
    {
        let n = pre.cells@.len() as int;
        assert(post.cells@.len() == n - 1);
        assert(forall|j: int|
            0 <= j < n - 1 ==> #[trigger] post.cells@[j] == (if j == i {
                pre.cells@[n - 1]
            } else {
                pre.cells@[j]
            }));
        assert(post.wf());
        assert forall|j: int| 0 <= j < n - 1 implies !(#[trigger] post.cells@[j]).at(kk) by {
            if post.cells@[j].at(kk) {
                if j == i {
                    assert(pre.cells@[n - 1].at(kk));
                    assert(pre.cells@[n - 1].key == pre.cells@[i].key);
                    assert(i == n - 1);
                } else {
                    assert(pre.cells@[j].at(kk));
                    assert(pre.cells@[j].key == pre.cells@[i].key);
                }
            }
        }
        assert forall|k: (int, int)| k != kk implies (post.occupied(k) <==> pre.occupied(k)) by {
            if post.occupied(k) {
                let j = choose|j: int|
                    0 <= j < post.cells@.len() && (#[trigger] post.cells@[j]).at(k);
                if j == i {
                    assert(pre.cells@[n - 1].at(k));
                } else {
                    assert(pre.cells@[j].at(k));
                }
            }
            if pre.occupied(k) {
                let w = choose|w: int|
                    0 <= w < pre.cells@.len() && (#[trigger] pre.cells@[w]).at(k);
                assert(w != i);
                if w == n - 1 {
                    assert(i < n - 1);
                    assert(post.cells@[i].at(k));
                } else {
                    assert(post.cells@[w].at(k));
                }
            }
        }
        assert forall|k: (int, int)| k != kk implies post.members_at(k) == pre.members_at(k) by {
            if pre.occupied(k) {
                let w = choose|w: int|
                    0 <= w < pre.cells@.len() && (#[trigger] pre.cells@[w]).at(k);
                assert(w != i);
                pre.lemma_members_at_idx(w, k);
                if w == n - 1 {
                    assert(i < n - 1);
                    post.lemma_members_at_idx(i, k);
                    assert(post.cells@[i].members@ == pre.cells@[w].members@);
                } else {
                    post.lemma_members_at_idx(w, k);
                }
            }
        }
    }

    /// Build an empty index with unit cells.
    pub fn new() -> (r: VoxelHashMap)
        ensures
            r.wf(),
            r.cell_size_spec() == 1,
            r.num_cells_spec() == 0,
            forall|k: (int, int)| !r.occupied(k),
            forall|k: (int, int)| r.members_at(k) == Seq::<u64>::empty(),
    {
        VoxelHashMap { cell_size: 1, cells: Vec::new() }
    }

    /// Change the cell size; the stored cells are kept as they are.
    pub fn set_cell_size(&mut self, cell_size: i64)
        requires
            old(self).wf(),
            cell_size >= 1,
        ensures
            final(self).wf(),
            final(self).cell_size_spec() == cell_size,
            final(self).num_cells_spec() == old(self).num_cells_spec(),
            forall|k: (int, int)| final(self).occupied(k) == old(self).occupied(k),
            forall|k: (int, int)| final(self).members_at(k) == old(self).members_at(k),
    {
        let ghost pre = *self;
        self.cell_size = cell_size;
        proof {
            assert forall|k: (int, int)| self.occupied(k) == pre.occupied(k) by {
                if pre.occupied(k) {
                    let i = choose|i: int|
                        0 <= i < pre.cells@.len() && (#[trigger] pre.cells@[i]).at(k);
                    assert(self.cells@[i].at(k));
                }
                if self.occupied(k) {
                    let i = choose|i: int|
                        0 <= i < self.cells@.len() && (#[trigger] self.cells@[i]).at(k);
                    assert(pre.cells@[i].at(k));
                }
            }
            assert forall|k: (int, int)| self.members_at(k) == pre.members_at(k) by {
                if pre.occupied(k) {
                    let i = choose|i: int|
                        0 <= i < pre.cells@.len() && (#[trigger] pre.cells@[i]).at(k);
                    pre.lemma_members_at_idx(i, k);
                    self.lemma_members_at_idx(i, k);
                }
            }
        }
    }

    /// The cell key for a position.
    pub fn vec2_to_key(&self, p: Vec2i) -> (r: (i64, i64))
        requires
            self.wf(),
        ensures
            lift_key(r) == self.key_of(p),
    {
        (crate::num::div_floor(p.x, self.cell_size), crate::num::div_floor(p.y, self.cell_size))
    }

    /// The lower-left corner of a cell, back in coordinates.
    pub fn key_to_vec2(&self, key: (i64, i64)) -> (r: Vec2i)
        requires
            self.wf(),
            i64::MIN <= key.0 * self.cell_size_spec() <= i64::MAX,
            i64::MIN <= key.1 * self.cell_size_spec() <= i64::MAX,
        ensures
            r.x == key.0 * self.cell_size_spec(),
            r.y == key.1 * self.cell_size_spec(),
    {
        let x = key.0.checked_mul(self.cell_size);
        let y = key.1.checked_mul(self.cell_size);
        Vec2i { x: x.unwrap(), y: y.unwrap() }
    }

    /// Index of the cell stored under `key`, if any.
    fn find_cell(&self, key: (i64, i64)) -> (o: Option<usize>)
        requires
            self.wf(),
        ensures
            match o {
                Some(i) => {
                    &&& i < self.cells@.len()
                    &&& self.cells@[i as int].at(lift_key(key))
                    &&& self.occupied(lift_key(key))
                    &&& self.members_at(lift_key(key)) == self.cells@[i as int].members@
                },
                None => !self.occupied(lift_key(key)),
            },
    {
        let n = self.cells.len();
        let mut i: usize = 0;
        while i < n
            invariant
                n == self.cells@.len(),
                i <= n,
                self.wf(),
                forall|j: int| 0 <= j < i ==> !(#[trigger] self.cells@[j]).at(lift_key(key)),
            decreases n - i,
        {
            if self.cells[i].key.0 == key.0 && self.cells[i].key.1 == key.1 {
                proof {
                    self.lemma_members_at_idx(i as int, lift_key(key));
                }
                return Some(i);
            }
            i = i + 1;
        }
        None
    }
    /// Register `id` under the cell of `position`. Re-inserting an id
    /// already in that exact cell leaves the index unchanged.
    pub fn insert(&mut self, position: Vec2i, id: u64)
        requires
            old(self).wf(),
        ensures
            final(self).wf(),
            final(self).cell_size_spec() == old(self).cell_size_spec(),
            final(self).member(old(self).key_of(position), id),
            old(self).member(old(self).key_of(position), id) ==> *final(self) == *old(self),
            forall|k: (int, int), e: u64|
                !(k == old(self).key_of(position) && e == id) ==> (#[trigger] final(self).member(
                    k,
                    e,
                ) <==> old(self).member(k, e)),
            forall|k: (int, int)|
                #[trigger] final(self).occupied(k) <==> (old(self).occupied(k) || k == old(self).key_of(position)),
            final(self).count_at(old(self).key_of(position)) == old(self).count_at(
                old(self).key_of(position),
            ) + (if old(self).member(old(self).key_of(position), id) {
                0int
            } else {
                1int
            }),
            forall|k: (int, int)|
                k != old(self).key_of(position) ==> #[trigger] final(self).count_at(k) == old(self).count_at(k),
            final(self).num_cells_spec() == old(self).num_cells_spec() + (if old(self).occupied(
                old(self).key_of(position),
            ) {
                0int
            } else {
                1int
            }),
    {
        let key = self.vec2_to_key(position);
        let ghost kk = lift_key(key);
        let ghost pre = *self;
        match self.find_cell(key) {
            Some(i) => {
                let found = vec_find(&self.cells[i].members, id);
                if found.is_none() {
                    let c = &mut self.cells[i];
                    c.members.push(id);
                    proof {
                        assert(distinct(pre.cells@[i as int].members@));
                        assert forall|a: int, b: int|
                            0 <= a < b < self.cells@[i as int].members@.len() implies (
                        #[trigger] self.cells@[i as int].members@[a]) != (
                        #[trigger] self.cells@[i as int].members@[b]) by {
                            if b == pre.cells@[i as int].members@.len() {
                                assert(pre.cells@[i as int].members@[a] != id);
                            }
                        }
                        Self::lemma_update_at(pre, *self, i as int, kk);
                        lemma_push_contains(pre.cells@[i as int].members@, id, id);
                        assert forall|k: (int, int), e: u64|
                            !(k == kk && e == id) implies (#[trigger] self.member(k, e)
                            <==> pre.member(k, e)) by {
                            if k == kk {
                                lemma_push_contains(pre.cells@[i as int].members@, id, e);
                            }
                        }
                    }
                }
            },
            None => {
                let mut members: Vec<u64> = Vec::new();
                members.push(id);
                self.cells.push(VoxelCell { key, members });
                proof {
                    Self::lemma_push_cell(pre, *self, kk);
                    assert(self.members_at(kk) == seq![id]);
                    assert(self.members_at(kk)[0] == id);
                    assert forall|k: (int, int), e: u64|
                        !(k == kk && e == id) implies (#[trigger] self.member(k, e) <==> pre.member(
                        k,
                        e,
                    )) by {
                        if k == kk {
                            assert(!pre.member(k, e));
                            if self.member(k, e) {
                                assert(self.members_at(kk)[choose|j: int|
                                    0 <= j < self.members_at(kk).len() && self.members_at(kk)[j]
                                        == e] == e);
                            }
                        }
                    }
                }
            },
        }
    }

    /// Membership test restricted to the single cell of `position`.
    pub fn contains(&self, position: Vec2i, id: u64) -> (r: bool)
        requires
            self.wf(),
        ensures
            r == self.member(self.key_of(position), id),
    {
        let key = self.vec2_to_key(position);
        match self.find_cell(key) {
            Some(i) => vec_find(&self.cells[i].members, id).is_some(),
            None => false,
        }
    }

    /// Drop `id` from the cell of `position`; a cell left empty is deleted.
    /// A silent no-op when `id` is not registered there.
    pub fn remove(&mut self, position: Vec2i, id: u64)
        requires
            old(self).wf(),
        ensures
            final(self).wf(),
            final(self).cell_size_spec() == old(self).cell_size_spec(),
            !final(self).member(old(self).key_of(position), id),
            !old(self).member(old(self).key_of(position), id) ==> *final(self) == *old(self),
            forall|k: (int, int), e: u64|
                !(k == old(self).key_of(position) && e == id) ==> (#[trigger] final(self).member(
                    k,
                    e,
                ) <==> old(self).member(k, e)),
            forall|k: (int, int)|
                #[trigger] final(self).occupied(k) <==> (old(self).occupied(k) && !(k == old(self).key_of(position) && old(self).count_at(k) == 1 && old(self).member(k, id))),
            final(self).count_at(old(self).key_of(position)) == old(self).count_at(
                old(self).key_of(position),
            ) - (if old(self).member(old(self).key_of(position), id) {
                1int
            } else {
                0int
            }),
            forall|k: (int, int)|
                k != old(self).key_of(position) ==> #[trigger] final(self).count_at(k) == old(self).count_at(k),
    {
        let key = self.vec2_to_key(position);
        let ghost kk = lift_key(key);
        let ghost pre = *self;
        match self.find_cell(key) {
            Some(i) => {
                match vec_find(&self.cells[i].members, id) {
                    Some(j) => {
                        proof {
                            assert(distinct(pre.cells@[i as int].members@));
                        }
                        if self.cells[i].members.len() == 1 {
                            self.cells.swap_remove(i);
                            proof {
                                Self::lemma_remove_cell_at(pre, *self, i as int, kk);
                                assert(pre.members_at(kk) == pre.cells@[i as int].members@);
                                assert(pre.members_at(kk)[0] == id);
                            }
                        } else {
                            let c = &mut self.cells[i];
                            c.members.swap_remove(j);
                            proof {
                                lemma_distinct_swap_remove(pre.cells@[i as int].members@, j as int);
                                Self::lemma_update_at(pre, *self, i as int, kk);
                            }
                        }
                    },
                    None => {},
                }
            },
            None => {},
        }
    }

    /// Unconditionally remove from the old cell and insert into the new one.
    pub fn move_to(&mut self, old_position: Vec2i, new_position: Vec2i, id: u64)
        requires
            old(self).wf(),
        ensures
            final(self).wf(),
            final(self).cell_size_spec() == old(self).cell_size_spec(),
            final(self).member(old(self).key_of(new_position), id),
            old(self).key_of(old_position) != old(self).key_of(new_position) ==> !final(self).member(old(self).key_of(old_position), id),
            forall|k: (int, int), e: u64|
                e != id ==> (#[trigger] final(self).member(k, e) <==> old(self).member(k, e)),
            forall|k: (int, int)|
                k != old(self).key_of(old_position) && k != old(self).key_of(new_position)
                    ==> #[trigger] final(self).count_at(k) == old(self).count_at(k) && (final(self).occupied(k) <==> old(self).occupied(k)),
            forall|k: (int, int)|
                k != old(self).key_of(old_position) && k != old(self).key_of(new_position) ==> (
                #[trigger] final(self).member(k, id) <==> old(self).member(k, id)),
            final(self).occupied(old(self).key_of(new_position)),
    {
        self.remove(old_position, id);
        self.insert(new_position, id);
    }

    /// Relocate `id` when its cell key changed; when both positions fall in
    /// the same cell this is a no-op and the index is untouched.
    pub fn update_entity(&mut self, old_position: Vec2i, new_position: Vec2i, id: u64)
        requires
            old(self).wf(),
        ensures
            final(self).wf(),
            final(self).cell_size_spec() == old(self).cell_size_spec(),
            old(self).key_of(old_position) == old(self).key_of(new_position) ==> *final(self) == *old(self),
            final(self).member(old(self).key_of(new_position), id) || (old(self).key_of(
                old_position,
            ) == old(self).key_of(new_position) && !old(self).member(
                old(self).key_of(new_position),
                id,
            )),
            old(self).key_of(old_position) != old(self).key_of(new_position) ==> !final(self).member(old(self).key_of(old_position), id),
            old(self).key_of(old_position) != old(self).key_of(new_position) ==> final(self).member(
                old(self).key_of(new_position),
                id,
            ),
            forall|k: (int, int), e: u64|
                e != id ==> (#[trigger] final(self).member(k, e) <==> old(self).member(k, e)),
            forall|k: (int, int)|
                k != old(self).key_of(old_position) && k != old(self).key_of(new_position) ==> (
                #[trigger] final(self).member(k, id) <==> old(self).member(k, id)),
    {
        let old_key = self.vec2_to_key(old_position);
        let new_key = self.vec2_to_key(new_position);
        if old_key.0 == new_key.0 && old_key.1 == new_key.1 {
            return ;
        }
        self.move_to(old_position, new_position, id);
    }

    /// How many occupied cells the index holds.
    pub fn num_cells(&self) -> (r: usize)
        ensures
            r == self.num_cells_spec(),
    {
        self.cells.len()
    }

    /// Whether the cell with this exact key is present.
    pub fn has_cell(&self, key: (i64, i64)) -> (r: bool)
        requires
            self.wf(),
        ensures
            r == self.occupied(lift_key(key)),
    {
        self.find_cell(key).is_some()
    }

    /// How many ids the cell with this key holds; zero when absent.
    pub fn cell_count(&self, key: (i64, i64)) -> (r: usize)
        requires
            self.wf(),
        ensures
            r == self.count_at(lift_key(key)),
    {
        match self.find_cell(key) {
            Some(i) => self.cells[i].members.len(),
            None => 0,
        }
    }

    /// The members of every listed cell, concatenated in order.
    pub open spec fn flat_members(self, keys: Seq<(int, int)>) -> Seq<u64>
        decreases keys.len(),
    {
        if keys.len() == 0 {
            Seq::empty()
        } else {
            self.members_at(keys[0]) + self.flat_members(keys.drop_first())
        }
    }

    /// Flattening one more key appends that cell's members.
    proof fn lemma_flat_members_push(self, keys: Seq<(int, int)>, k: (int, int))
        ensures
            self.flat_members(keys.push(k)) == self.flat_members(keys) + self.members_at(k),
        decreases keys.len(),
    {
        if keys.len() == 0 {
            assert(keys.push(k)[0] == k);
            assert(keys.push(k).drop_first() =~= Seq::<(int, int)>::empty());
            assert(self.flat_members(Seq::<(int, int)>::empty()) =~= Seq::<u64>::empty());
            assert(self.flat_members(keys.push(k)) =~= self.members_at(k) + Seq::<u64>::empty());
            assert(self.members_at(k) + Seq::<u64>::empty() =~= self.members_at(k));
            assert(self.flat_members(keys) + self.members_at(k) =~= self.members_at(k));
        } else {
            assert(keys.push(k).drop_first() =~= keys.drop_first().push(k));
            assert(keys.push(k)[0] == keys[0]);
            self.lemma_flat_members_push(keys.drop_first(), k);
            assert(self.members_at(keys[0]) + (self.flat_members(keys.drop_first())
                + self.members_at(k)) =~= (self.members_at(keys[0]) + self.flat_members(
                keys.drop_first(),
            )) + self.members_at(k));
        }
    }

    /// An id registered under any listed key appears in the flattening.
    pub proof fn lemma_flat_members_contains(self, keys: Seq<(int, int)>, m: int, id: u64)
        requires
            0 <= m < keys.len(),
            self.members_at(keys[m]).contains(id),
        ensures
            self.flat_members(keys).contains(id),
        decreases keys.len(),
    {
        if m == 0 {
            let j = choose|j: int|
                0 <= j < self.members_at(keys[0]).len() && self.members_at(keys[0])[j] == id;
            assert(self.flat_members(keys)[j] == id);
        } else {
            self.lemma_flat_members_contains(keys.drop_first(), m - 1, id);
            let j = choose|j: int|
                0 <= j < self.flat_members(keys.drop_first()).len() && self.flat_members(
                    keys.drop_first(),
                )[j] == id;
            assert(self.flat_members(keys)[self.members_at(keys[0]).len() + j] == id);
        }
    }

    /// An id in the flattening is registered under one of the listed keys.
    pub proof fn lemma_flat_members_inv(self, keys: Seq<(int, int)>, id: u64)
        requires
            self.flat_members(keys).contains(id),
        ensures
            exists|m: int| 0 <= m < keys.len() && self.members_at(#[trigger] keys[m]).contains(id),
        decreases keys.len(),
    {
        let j = choose|j: int|
            0 <= j < self.flat_members(keys).len() && self.flat_members(keys)[j] == id;
        let head = self.members_at(keys[0]);
        if j < head.len() {
            assert(head[j] == id);
            assert(self.members_at(keys[0]).contains(id));
        } else {
            assert(self.flat_members(keys.drop_first())[j - head.len()] == id);
            self.lemma_flat_members_inv(keys.drop_first(), id);
            let m = choose|m: int|
                0 <= m < keys.drop_first().len() && self.members_at(
                    #[trigger] keys.drop_first()[m],
                ).contains(id);
            assert(keys[m + 1] == keys.drop_first()[m]);
        }
    }

    /// With pairwise-distinct keys, and no id registered under two keys,
    /// the flattening lists each id at most once.
    pub proof fn lemma_flat_members_no_duplicates(self, keys: Seq<(int, int)>)
        requires
            self.wf(),
            keys.no_duplicates(),
            forall|k1: (int, int), k2: (int, int), id: u64|
                #[trigger] self.member(k1, id) && #[trigger] self.member(k2, id) ==> k1 == k2,
        ensures
            self.flat_members(keys).no_duplicates(),
        decreases keys.len(),
    {
        if keys.len() > 0 {
            let head = self.members_at(keys[0]);
            let rest = self.flat_members(keys.drop_first());
            assert(keys.drop_first().no_duplicates()) by {
                assert(forall|a: int, b: int|
                    0 <= a < b < keys.drop_first().len() ==> #[trigger] keys.drop_first()[a]
                        != #[trigger] keys.drop_first()[b]) by {
                    assert(forall|a: int|
                        0 <= a < keys.drop_first().len() ==> #[trigger] keys.drop_first()[a]
                            == keys[a + 1]);
                }
            }
            self.lemma_flat_members_no_duplicates(keys.drop_first());
            assert(head.no_duplicates()) by {
                if self.occupied(keys[0]) {
                    let i = choose|i: int|
                        0 <= i < self.cells@.len() && (#[trigger] self.cells@[i]).at(keys[0]);
                    assert(self.cells@[i].wf());
                    self.lemma_members_at_idx(i, keys[0]);
                }
            }
            let s = self.flat_members(keys);
            assert forall|a: int, b: int| 0 <= a < b < s.len() implies s[a] != s[b] by {
                if b < head.len() {
                    assert(s[a] == head[a] && s[b] == head[b]);
                } else if a >= head.len() {
                    assert(s[a] == rest[a - head.len()] && s[b] == rest[b - head.len()]);
                } else {
                    assert(s[a] == head[a] && s[b] == rest[b - head.len()]);
                    if s[a] == s[b] {
                        let id = s[a];
                        assert(head.contains(id));
                        assert(rest[b - head.len()] == id);
                        assert(rest.contains(id));
                        self.lemma_flat_members_inv(keys.drop_first(), id);
                        let m = choose|m: int|
                            0 <= m < keys.drop_first().len() && self.members_at(
                                #[trigger] keys.drop_first()[m],
                            ).contains(id);
                        assert(keys[m + 1] == keys.drop_first()[m]);
                        assert(self.member(keys[0], id) && self.member(keys[m + 1], id));
                        assert(keys[0] == keys[m + 1]);
                    }
                }
            }
        }
    }

    /// Concatenate the member lists of the given cells, in order.
    fn flatten_cells(&self, keys: &Vec<(i64, i64)>) -> (r: Vec<u64>)
        requires
            self.wf(),
        ensures
            r@ == self.flat_members(lift_keys(keys@)),
    {
        let mut r: Vec<u64> = Vec::new();
        let n = keys.len();
        let mut i: usize = 0;
        proof {
            assert(lift_keys(keys@).take(0) =~= Seq::<(int, int)>::empty());
        }
        while i < n
            invariant
                self.wf(),
                n == keys@.len(),
                i <= n,
                r@ == self.flat_members(lift_keys(keys@).take(i as int)),
            decreases n - i,
        {
            let ghost prefix = lift_keys(keys@).take(i as int);
            let ghost kk = lift_key(keys@[i as int]);
            match self.find_cell(keys[i]) {
                Some(c) => {
                    let members = &self.cells[c].members;
                    let m = members.len();
                    let mut j: usize = 0;
                    while j < m
                        invariant
                            m == members@.len(),
                            j <= m,
                            r@ == self.flat_members(prefix) + members@.take(j as int),
                            self.members_at(kk) == members@,
                        decreases m - j,
                    {
                        r.push(members[j]);
                        proof {
                            assert(members@.take(j + 1) =~= members@.take(j as int).push(
                                members@[j as int],
                            ));
                            assert(r@ =~= self.flat_members(prefix) + members@.take(j + 1));
                        }
                        j = j + 1;
                    }
                    proof {
                        assert(members@.take(m as int) =~= members@);
                    }
                },
                None => {
                    proof {
                        assert(self.members_at(kk) =~= Seq::<u64>::empty());
                        assert(r@ =~= self.flat_members(prefix) + self.members_at(kk));
                    }
                },
            }
            proof {
                self.lemma_flat_members_push(prefix, kk);
                assert(lift_keys(keys@).take(i + 1) =~= prefix.push(kk));
            }
            i = i + 1;
        }
        proof {
            assert(lift_keys(keys@).take(n as int) =~= lift_keys(keys@));
        }
        r
    }

    /// The eight keys around the cell of `position`, the center excluded.
    pub fn get_neighbor_keys(&self, position: Vec2i) -> (r: Vec<(i64, i64)>)
        requires
            self.wf(),
            i64::MIN < self.key_of(position).0 < i64::MAX,
            i64::MIN < self.key_of(position).1 < i64::MAX,
        ensures
            r@.len() == 8,
            lift_keys(r@) == moore_keys_seq(self.key_of(position)),
    {
        let (kx, ky) = self.vec2_to_key(position);
        let mut r: Vec<(i64, i64)> = Vec::new();
        r.push((kx - 1, ky - 1));
        r.push((kx - 1, ky));
        r.push((kx - 1, ky + 1));
        r.push((kx, ky - 1));
        r.push((kx, ky + 1));
        r.push((kx + 1, ky - 1));
        r.push((kx + 1, ky));
        r.push((kx + 1, ky + 1));
        proof {
            assert(lift_keys(r@) =~= moore_keys_seq(self.key_of(position)));
        }
        r
    }

    /// All keys within `ceil(radius / cell_size)` rings of the cell of
    /// `position`: a square block, the center included. Cells only partially
    /// inside the circle are included; callers filter by exact distance.
    pub fn get_neighbor_keys_within(&self, position: Vec2i, radius: i64) -> (r: Vec<(i64, i64)>)
        requires
            self.wf(),
            0 <= radius < i64::MAX,
            i64::MIN <= self.key_of(position).0 - ring_count(self.cell_size_spec(), radius as int),
            self.key_of(position).0 + ring_count(self.cell_size_spec(), radius as int) <= i64::MAX,
            i64::MIN <= self.key_of(position).1 - ring_count(self.cell_size_spec(), radius as int),
            self.key_of(position).1 + ring_count(self.cell_size_spec(), radius as int) <= i64::MAX,
        ensures
            lift_keys(r@) == block_keys(
                self.key_of(position),
                ring_count(self.cell_size_spec(), radius as int),
            ),
    {
        let (kx, ky) = self.vec2_to_key(position);
        let cs = self.cell_size;
        let ghost rr_spec = ring_count(self.cell_size_spec(), radius as int);
        let num: i128 = radius as i128 + cs as i128 - 1;
        proof {
            crate::num::lemma_div_floor_bounds(num as int, cs as int);
            assert(num < (radius as int + 1) * (cs as int)) by (nonlinear_arith)
                requires
                    num == radius as int + cs as int - 1,
                    radius >= 0,
                    cs >= 1,
            ;
            vstd::arithmetic::div_mod::lemma_multiply_divide_lt(
                num as int,
                cs as int,
                radius as int + 1,
            );
        }
        let rr: i64 = (num.checked_div_euclid(cs as i128)).unwrap() as i64;
        let ghost w = 2 * rr_spec + 1;
        let mut r: Vec<(i64, i64)> = Vec::new();
        let mut di: i64 = -rr;
        proof {
            assert((di + rr) * w == 0) by (nonlinear_arith)
                requires
                    di + rr == 0,
            ;
        }
        while di <= rr
            invariant
                self.wf(),
                rr == rr_spec,
                w == 2 * rr_spec + 1,
                0 <= rr < i64::MAX,
                i64::MIN <= kx - rr,
                kx + rr <= i64::MAX,
                i64::MIN <= ky - rr,
                ky + rr <= i64::MAX,
                kx == self.key_of(position).0,
                ky == self.key_of(position).1,
                -rr <= di <= rr + 1,
                r@.len() as int == (di + rr) * w,
                forall|m: int|
                    0 <= m < r@.len() ==> #[trigger] lift_key(r@[m]) == (
                    kx - rr + m / w,
                    ky - rr + m % w,
                ),
            decreases rr + 1 - di,
        {
            let mut dj: i64 = -rr;
            while dj <= rr
                invariant
                    rr == rr_spec,
                    w == 2 * rr_spec + 1,
                    0 <= rr < i64::MAX,
                    i64::MIN <= kx - rr,
                    kx + rr <= i64::MAX,
                    i64::MIN <= ky - rr,
                    ky + rr <= i64::MAX,
                    -rr <= di <= rr,
                    -rr <= dj <= rr + 1,
                    r@.len() as int == (di + rr) * w + (dj + rr),
                    forall|m: int|
                        0 <= m < r@.len() ==> #[trigger] lift_key(r@[m]) == (
                        kx - rr + m / w,
                        ky - rr + m % w,
                    ),
                decreases rr + 1 - dj,
            {
                r.push((kx + di, ky + dj));
                proof {
                    let m0 = r@.len() - 1;
                    vstd::arithmetic::div_mod::lemma_fundamental_div_mod_converse(
                        m0 as int,
                        w,
                        di + rr,
                        dj + rr,
                    );
                }
                dj = dj + 1;
            }
            proof {
                assert((di + rr) * w + (rr + 1 + rr) == (di + 1 + rr) * w) by (nonlinear_arith)
                    requires
                        w == 2 * rr_spec + 1,
                        rr == rr_spec,
                ;
            }
            di = di + 1;
        }
        proof {
            assert((rr + 1 + rr) * w == w * w) by (nonlinear_arith)
                requires
                    w == 2 * rr_spec + 1,
                    rr == rr_spec,
            ;
            assert(lift_keys(r@) =~= block_keys(self.key_of(position), rr_spec));
        }
        r
    }

    /// The entities in the eight cells around the cell of `position` (the
    /// center cell's own members are not included), concatenated.
    pub fn get_neighbor_entities(&self, position: Vec2i) -> (r: Vec<u64>)
        requires
            self.wf(),
            i64::MIN < self.key_of(position).0 < i64::MAX,
            i64::MIN < self.key_of(position).1 < i64::MAX,
        ensures
            r@ == self.flat_members(moore_keys_seq(self.key_of(position))),
    {
        let keys = self.get_neighbor_keys(position);
        self.flatten_cells(&keys)
    }

    /// Every entity registered in any cell within `ceil(radius / cell_size)`
    /// rings of the cell of `position`: a conservative superset of the
    /// entities within `radius`, possibly including the querying entity
    /// itself. Callers filter by exact distance and drop themselves.
    pub fn candidates_near(&self, position: Vec2i, radius: i64) -> (r: Vec<u64>)
        requires
            self.wf(),
            0 <= radius < i64::MAX,
            i64::MIN <= self.key_of(position).0 - ring_count(self.cell_size_spec(), radius as int),
            self.key_of(position).0 + ring_count(self.cell_size_spec(), radius as int) <= i64::MAX,
            i64::MIN <= self.key_of(position).1 - ring_count(self.cell_size_spec(), radius as int),
            self.key_of(position).1 + ring_count(self.cell_size_spec(), radius as int) <= i64::MAX,
        ensures
            r@ == self.flat_members(
                block_keys(
                    self.key_of(position),
                    ring_count(self.cell_size_spec(), radius as int),
                ),
            ),
    {
        let keys = self.get_neighbor_keys_within(position, radius);
        self.flatten_cells(&keys)
    }

    /// Neighbor-query superset law: an entity registered under the cell of
    /// its position `q`, with `q` within Euclidean distance `radius` of the
    /// query point, always appears in what `candidates_near` returns. The
    /// query may over-report, but never misses a true neighbor.
    pub proof fn lemma_candidates_superset(self, position: Vec2i, radius: int, q: Vec2i, id: u64)
        requires
            self.wf(),
            radius >= 0,
            self.member(self.key_of(q), id),
            dist2_spec(position, q) <= radius * radius,
        ensures
            self.flat_members(
                block_keys(self.key_of(position), ring_count(self.cell_size_spec(), radius)),
            ).contains(id),
    {
        let cs = self.cell_size_spec();
        let rr = ring_count(cs, radius);
        let w = 2 * rr + 1;
        let s = radius + cs - 1;
        lemma_fundamental_div_mod(s, cs);
        lemma_mod_division_less_than_divisor(s, cs);
        assert(0 <= rr && radius <= rr * cs && rr <= s) by (nonlinear_arith)
            requires
                s == radius + cs - 1,
                s == rr * cs + s % cs,
                0 <= s % cs < cs,
                cs >= 1,
                radius >= 0,
        ;
        let dx = position.x - q.x;
        let dy = position.y - q.y;
        assert(-radius <= dx <= radius && -radius <= dy <= radius) by (nonlinear_arith)
            requires
                dx * dx + dy * dy <= radius * radius,
                radius >= 0,
        ;
        let kp = self.key_of(position);
        let kq = self.key_of(q);
        lemma_fundamental_div_mod(q.x as int, cs);
        lemma_mod_division_less_than_divisor(q.x as int, cs);
        lemma_fundamental_div_mod(q.y as int, cs);
        lemma_mod_division_less_than_divisor(q.y as int, cs);
        lemma_fundamental_div_mod(position.x as int, cs);
        lemma_mod_division_less_than_divisor(position.x as int, cs);
        lemma_fundamental_div_mod(position.y as int, cs);
        lemma_mod_division_less_than_divisor(position.y as int, cs);
        assert(kp.0 - rr <= kq.0 <= kp.0 + rr) by (nonlinear_arith)
            requires
                q.x as int == cs * kq.0 + (q.x as int) % cs,
                0 <= (q.x as int) % cs < cs,
                position.x as int == cs * kp.0 + (position.x as int) % cs,
                0 <= (position.x as int) % cs < cs,
                position.x - rr * cs <= q.x as int <= position.x + rr * cs,
                cs >= 1,
        ;
        assert(kp.1 - rr <= kq.1 <= kp.1 + rr) by (nonlinear_arith)
            requires
                q.y as int == cs * kq.1 + (q.y as int) % cs,
                0 <= (q.y as int) % cs < cs,
                position.y as int == cs * kp.1 + (position.y as int) % cs,
                0 <= (position.y as int) % cs < cs,
                position.y - rr * cs <= q.y as int <= position.y + rr * cs,
                cs >= 1,
        ;
        let a = kq.0 - (kp.0 - rr);
        let b = kq.1 - (kp.1 - rr);
        let m = a * w + b;
        assert(0 <= m < w * w) by (nonlinear_arith)
            requires
                m == a * w + b,
                0 <= a <= 2 * rr,
                0 <= b <= 2 * rr,
                w == 2 * rr + 1,
        ;
        lemma_fundamental_div_mod_converse(m, w, a, b);
        assert(block_keys(kp, rr)[m] == kq);
        self.lemma_flat_members_contains(block_keys(kp, rr), m, id);
    }
}

/// Membership in a pushed sequence: the old members, plus the new value.
proof fn lemma_push_contains(s: Seq<u64>, v: u64, e: u64)
    ensures
        s.push(v).contains(e) <==> (s.contains(e) || e == v),
{
    if s.push(v).contains(e) {
        let j = choose|j: int| 0 <= j < s.push(v).len() && s.push(v)[j] == e;
        if j < s.len() {
            assert(s[j] == e);
        }
    }
    if s.contains(e) {
        let j = choose|j: int| 0 <= j < s.len() && s[j] == e;
        assert(s.push(v)[j] == e);
    }
    if e == v {
        assert(s.push(v)[s.len() as int] == e);
    }
}

/// Distinctness of a sequence of ids.
spec fn distinct(s: Seq<u64>) -> bool {
    forall|a: int, b: int| 0 <= a < b < s.len() ==> #[trigger] s[a] != #[trigger] s[b]
}

/// What `swap_remove` leaves of a distinct sequence: everything but the
/// removed id, still distinct.
proof fn lemma_distinct_swap_remove(s: Seq<u64>, j: int)
    requires
        distinct(s),
        0 <= j < s.len(),
    ensures
        distinct(s.update(j, s.last()).drop_last()),
        forall|e: u64|
            #[trigger] s.update(j, s.last()).drop_last().contains(e) <==> (s.contains(e) && e
                != s[j]),
{
    let n = s.len() as int;
    let t = s.update(j, s.last()).drop_last();
    assert(t.len() == n - 1);
    assert(forall|m: int|
        0 <= m < n - 1 ==> #[trigger] t[m] == (if m == j {
            s[n - 1]
        } else {
            s[m]
        }));
    assert forall|e: u64| #[trigger] t.contains(e) implies (s.contains(e) && e != s[j]) by {
        let m = choose|m: int| 0 <= m < t.len() && t[m] == e;
        if m == j {
            assert(s[n - 1] == e);
            assert(j < n - 1);
        } else {
            assert(s[m] == e);
        }
    }
    assert forall|e: u64| s.contains(e) && e != s[j] implies #[trigger] t.contains(e) by {
        let w = choose|w: int| 0 <= w < s.len() && s[w] == e;
        if w == n - 1 {
            assert(j != w);
            assert(t[j] == e);
        } else if w != j {
            assert(t[w] == e);
        }
    }
}

/// Position of `id` in a plain id list, if present.
fn vec_find(v: &Vec<u64>, id: u64) -> (o: Option<usize>)
    ensures
        match o {
            Some(j) => j < v@.len() && v@[j as int] == id && v@.contains(id),
            None => !v@.contains(id),
        },
{
    let n = v.len();
    let mut i: usize = 0;
    while i < n
        invariant
            n == v@.len(),
            i <= n,
            forall|j: int| 0 <= j < i ==> v@[j] != id,
        decreases n - i,
    {
        if v[i] == id {
            return Some(i);
        }
        i = i + 1;
    }
    None
}

} // verus!
