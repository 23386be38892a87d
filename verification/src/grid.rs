//! The uniform-grid spatial index: a fixed bounded 3D region partitioned into
//! `nx * ny * nz` axis-aligned cells, each owning the unordered list of agent
//! ids currently located there. Positions map to cells by clamped linear
//! normalization, so every finite position has a cell.

use vstd::prelude::*;
use crate::vec3::{Vec3, SpecVec3, clamp_int};
use crate::errors::{ConfigurationError, SpatialIndexError};
use crate::COORD_LIMIT;

verus! {

/// Largest cell count allowed along one axis: a machine limit that keeps the
/// flattened cell index inside `usize`.
pub const MAX_DIM: i64 = 1024;

/// Integer 3-tuple identifying one grid cell, with each coordinate in
/// `[0, n)` for that axis's dimension `n`.
#[derive(Clone, Copy, PartialEq, Eq, Structural, Debug)]
pub struct CellKey {
    pub x: usize,
    pub y: usize,
    pub z: usize,
}

/// The mathematical value of a [`SpatialGrid`]: its bounds, dimensions, and
/// the per-cell membership lists in flattened axis order.
pub ghost struct GridView {
    pub bounds_min: SpecVec3,
    pub bounds_max: SpecVec3,
    pub nx: int,
    pub ny: int,
    pub nz: int,
    pub cells: Seq<Seq<usize>>,
}

/// The minimum corner is strictly below the maximum corner on every axis.
pub open spec fn bounds_valid(lo: SpecVec3, hi: SpecVec3) -> bool {
    lo.x < hi.x && lo.y < hi.y && lo.z < hi.z
}

/// Both corners lie within the fixed-point machine range.
pub open spec fn bounds_bounded(lo: SpecVec3, hi: SpecVec3) -> bool {
    lo.bounded(COORD_LIMIT as int) && hi.bounded(COORD_LIMIT as int)
}

/// The cell coordinate of one position coordinate: normalize `p` into
/// `[lo, hi)`, clamping at the edges, scale by the axis dimension `n`, and
/// floor.
pub open spec fn axis_key(p: int, lo: int, hi: int, n: int) -> int
    recommends
        lo < hi,
        n >= 1,
{
    if p <= lo {
        0
    } else if p >= hi {
        n - 1
    } else {
        clamp_int((p - lo) * n / (hi - lo), 0, n - 1)
    }
}

/// Total number of ids across a sequence of membership lists.
pub open spec fn sum_lens(cells: Seq<Seq<usize>>) -> int
    decreases cells.len(),
{
    if cells.len() == 0 {
        0
    } else {
        sum_lens(cells.drop_last()) + cells.last().len()
    }
}

/// Index of the first occurrence of `id` in `s`.
pub open spec fn first_idx(s: Seq<usize>, id: usize) -> int
    decreases s.len(),
{
    if s.len() == 0 {
        0
    } else if s[0] == id {
        0
    } else {
        1 + first_idx(s.drop_first(), id)
    }
}

impl GridView {
    /// Grid dimensions are positive and within the machine limit.
    pub open spec fn dims_valid(self) -> bool {
        &&& 1 <= self.nx <= MAX_DIM
        &&& 1 <= self.ny <= MAX_DIM
        &&& 1 <= self.nz <= MAX_DIM
    }

    /// A well-formed grid: valid bounds and dimensions, and one membership
    /// list for every cell in the full 3D range.
    pub open spec fn wf(self) -> bool {
        &&& bounds_valid(self.bounds_min, self.bounds_max)
        &&& bounds_bounded(self.bounds_min, self.bounds_max)
        &&& self.dims_valid()
        &&& self.cells.len() == self.nx * self.ny * self.nz
    }

    /// The key is inside the initialized cell range.
    pub open spec fn in_range(self, k: CellKey) -> bool {
        k.x < self.nx && k.y < self.ny && k.z < self.nz
    }

    /// Flattened index of a cell key, in x-major order.
    pub open spec fn flat(self, k: CellKey) -> int {
        (k.x * self.ny + k.y) * self.nz + k.z
    }

    /// The cell key a position maps to, per axis: clamped normalization into
    /// the bounds, scaled by the dimension, floored.
    pub open spec fn key_of(self, p: SpecVec3) -> CellKey {
        CellKey {
            x: axis_key(p.x, self.bounds_min.x, self.bounds_max.x, self.nx) as usize,
            y: axis_key(p.y, self.bounds_min.y, self.bounds_max.y, self.ny) as usize,
            z: axis_key(p.z, self.bounds_min.z, self.bounds_max.z, self.nz) as usize,
        }
    }

    /// Total number of ids registered across all cells.
    pub open spec fn total_count(self) -> int {
        sum_lens(self.cells)
    }

    /// The membership list of the cell `k`.
    pub open spec fn members_of(self, k: CellKey) -> Seq<usize> {
        self.cells[self.flat(k)]
    }
}

/// The axis key is total and clamps: it is always in `[0, n)`, positions at
/// or below the lower bound map to 0, and positions at or beyond the upper
/// bound map to `n - 1`.
pub proof fn lemma_axis_key_clamps(p: int, lo: int, hi: int, n: int)
    requires
        lo < hi,
        n >= 1,
    ensures
        0 <= axis_key(p, lo, hi, n) < n,
        p <= lo ==> axis_key(p, lo, hi, n) == 0,
        p >= hi ==> axis_key(p, lo, hi, n) == n - 1,
{
    if p <= lo {
    } else if p >= hi {
    } else {
        vstd::arithmetic::div_mod::lemma_div_pos_is_pos((p - lo) * n, hi - lo);
        assert((p - lo) * n >= 0) by (nonlinear_arith)
            requires
                p - lo >= 0,
                n >= 1,
        ;
    }
}

/// A cell key computed from any position lies in the grid's range.
pub proof fn lemma_key_of_in_range(g: GridView, p: SpecVec3)
    requires
        g.wf(),
    ensures
        g.in_range(g.key_of(p)),
{
    lemma_axis_key_clamps(p.x, g.bounds_min.x, g.bounds_max.x, g.nx);
    lemma_axis_key_clamps(p.y, g.bounds_min.y, g.bounds_max.y, g.ny);
    lemma_axis_key_clamps(p.z, g.bounds_min.z, g.bounds_max.z, g.nz);
}

/// Flattened indices of in-range keys are in range of the cell list, and the
/// flattening is injective on in-range keys.
pub proof fn lemma_flat_in_range(g: GridView, k: CellKey)
    requires
        g.wf(),
        g.in_range(k),
    ensures
        0 <= g.flat(k) < g.cells.len(),
{
    assert(0 <= (k.x * g.ny + k.y) * g.nz + k.z < g.nx * g.ny * g.nz) by (nonlinear_arith)
        requires
            0 <= k.x < g.nx,
            0 <= k.y < g.ny,
            0 <= k.z < g.nz,
            1 <= g.nx,
            1 <= g.ny,
            1 <= g.nz,
    ;
}

/// Two distinct in-range keys flatten to distinct indices.
pub proof fn lemma_flat_injective(g: GridView, a: CellKey, b: CellKey)
    requires
        g.wf(),
        g.in_range(a),
        g.in_range(b),
        g.flat(a) == g.flat(b),
    ensures
        a == b,
{
    assert(a.x == b.x && a.y == b.y && a.z == b.z) by (nonlinear_arith)
        requires
            0 <= a.x < g.nx,
            0 <= a.y < g.ny,
            0 <= a.z < g.nz,
            0 <= b.x < g.nx,
            0 <= b.y < g.ny,
            0 <= b.z < g.nz,
            (a.x * g.ny + a.y) * g.nz + a.z == (b.x * g.ny + b.y) * g.nz + b.z,
    ;
}

/// Replacing one membership list changes the total count by the difference of
/// the two lists' lengths.
pub proof fn lemma_sum_lens_update(cells: Seq<Seq<usize>>, i: int, c: Seq<usize>)
    requires
        0 <= i < cells.len(),
    ensures
        sum_lens(cells.update(i, c)) == sum_lens(cells) - cells[i].len() + c.len(),
    decreases cells.len(),
{
    let upd = cells.update(i, c);
    if i == cells.len() - 1 {
        assert(upd.drop_last() =~= cells.drop_last());
        assert(upd.last() == c);
    } else {
        assert(upd.drop_last() =~= cells.drop_last().update(i, c));
        assert(upd.last() == cells.last());
        lemma_sum_lens_update(cells.drop_last(), i, c);
    }
}

/// The first occurrence of a contained id is a valid index holding that id,
/// with no occurrence before it.
pub proof fn lemma_first_idx(s: Seq<usize>, id: usize)
    requires
        s.contains(id),
    ensures
        0 <= first_idx(s, id) < s.len(),
        s[first_idx(s, id)] == id,
        forall|j: int| 0 <= j < first_idx(s, id) ==> s[j] != id,
    decreases s.len(),
{
    if s[0] == id {
    } else {
        let t = s.drop_first();
        assert(s.contains(id));
        let w = choose|w: int| 0 <= w < s.len() && s[w] == id;
        assert(t[w - 1] == id);
        assert(t.contains(id));
        lemma_first_idx(t, id);
        assert(s[first_idx(s, id)] == t[first_idx(t, id)]);
        assert(forall|j: int| 1 <= j < first_idx(s, id) ==> s[j] == t[j - 1]);
    }
}


/// The uniform-grid spatial index. It owns only agent identifiers, never
/// agent kinematic state, and is mutated exclusively through
/// [`SpatialGrid::insert`], [`SpatialGrid::remove`] and
/// [`SpatialGrid::relocate`].
pub struct SpatialGrid {
    bounds_min: Vec3,
    bounds_max: Vec3,
    nx: usize,
    ny: usize,
    nz: usize,
    cells: Vec<Vec<usize>>,
}

impl View for SpatialGrid {
    type V = GridView;

    closed spec fn view(&self) -> GridView {
        GridView {
            bounds_min: self.bounds_min@,
            bounds_max: self.bounds_max@,
            nx: self.nx as int,
            ny: self.ny as int,
            nz: self.nz as int,
            cells: self.cells@.map_values(|c: Vec<usize>| c@),
        }
    }
}

impl SpatialGrid {
    /// Allocates an empty membership list for every cell key in the full 3D
    /// range; no agents present. Rejects a configuration whose minimum corner
    /// is not strictly below its maximum on every axis, or whose dimensions
    /// are not positive.
    pub fn init(bounds_min: Vec3, bounds_max: Vec3, nx: i64, ny: i64, nz: i64) -> (r: Result<
        SpatialGrid,
        ConfigurationError,
    >)
        requires
            bounds_bounded(bounds_min@, bounds_max@),
            nx <= MAX_DIM,
            ny <= MAX_DIM,
            nz <= MAX_DIM,
        ensures
            match r {
                Ok(g) => {
                    &&& bounds_valid(bounds_min@, bounds_max@)
                    &&& nx >= 1 && ny >= 1 && nz >= 1
                    &&& g@.wf()
                    &&& g@.bounds_min == bounds_min@
                    &&& g@.bounds_max == bounds_max@
                    &&& g@.nx == nx && g@.ny == ny && g@.nz == nz
                    &&& g@.cells.len() == nx * ny * nz
                    &&& forall|c: int| 0 <= c < g@.cells.len() ==> g@.cells[c].len() == 0
                    &&& g@.total_count() == 0
                },
                Err(ConfigurationError::InvalidBounds) => !bounds_valid(bounds_min@, bounds_max@),
                Err(ConfigurationError::InvalidDimensions) => {
                    &&& bounds_valid(bounds_min@, bounds_max@)
                    &&& !(nx >= 1 && ny >= 1 && nz >= 1)
                },
            },
    {
        if !(bounds_min.x < bounds_max.x && bounds_min.y < bounds_max.y && bounds_min.z
            < bounds_max.z) {
            return Err(ConfigurationError::InvalidBounds);
        }
        if nx < 1 || ny < 1 || nz < 1 {
            return Err(ConfigurationError::InvalidDimensions);
        }
        let nxu: usize = nx as usize;
        let nyu: usize = ny as usize;
        let nzu: usize = nz as usize;
        proof {
            assert(nxu * nyu <= 1024 * 1024 && nxu * nyu * nzu <= 1024 * 1024 * 1024) by (nonlinear_arith)
                requires
                    1 <= nxu <= 1024,
                    1 <= nyu <= 1024,
                    1 <= nzu <= 1024,
            ;
        }
        let total: usize = nxu * nyu * nzu;
        let mut cells: Vec<Vec<usize>> = Vec::new();
        let mut i: usize = 0;
        while i < total
            invariant
                i <= total,
                cells@.len() == i,
                forall|c: int| 0 <= c < i ==> cells@[c]@.len() == 0,
                sum_lens(cells@.map_values(|c: Vec<usize>| c@)) == 0,
            decreases total - i,
        {
            let ghost before = cells@.map_values(|c: Vec<usize>| c@);
            cells.push(Vec::new());
            proof {
                let after = cells@.map_values(|c: Vec<usize>| c@);
                assert(after.drop_last() =~= before);
                assert(after.last().len() == 0);
            }
            i = i + 1;
        }
        let g = SpatialGrid { bounds_min, bounds_max, nx: nxu, ny: nyu, nz: nzu, cells };
        proof {
            assert(g@.cells.len() == cells@.len());
        }
        Ok(g)
    }

    /// The deterministic, total mapping from a position to its cell key:
    /// normalizes into the bounds per axis (clamping at and beyond the
    /// boundary), scales by the dimension, and floors. Never produces an
    /// out-of-range key.
    pub fn cell_key_of(&self, p: &Vec3) -> (k: CellKey)
        requires
            self@.wf(),
        ensures
            k == self@.key_of(p@),
            self@.in_range(k),
    {
        proof {
            lemma_key_of_in_range(self@, p@);
        }
        let kx = axis_cell(p.x, self.bounds_min.x, self.bounds_max.x, self.nx);
        let ky = axis_cell(p.y, self.bounds_min.y, self.bounds_max.y, self.ny);
        let kz = axis_cell(p.z, self.bounds_min.z, self.bounds_max.z, self.nz);
        CellKey { x: kx, y: ky, z: kz }
    }
}

/// One axis of the position-to-cell mapping.
fn axis_cell(p: i64, lo: i64, hi: i64, n: usize) -> (k: usize)
    requires
        lo < hi,
        -(COORD_LIMIT as int) <= lo,
        hi <= COORD_LIMIT as int,
        1 <= n <= MAX_DIM,
    ensures
        k == axis_key(p as int, lo as int, hi as int, n as int),
{
    if p <= lo {
        0
    } else if p >= hi {
        n - 1
    } else {
        let d: i64 = p - lo;
        proof {
            assert(0 < (d as int) * (n as int) <= ((hi - lo) as int) * (n as int)
                && ((hi - lo) as int) * (n as int) <= 2_048_000_000_000_000) by (nonlinear_arith)
                requires
                    0 < d as int <= (hi - lo) as int,
                    1 <= n <= 1024,
                    (hi - lo) as int <= 2_000_000_000_000,
            ;
        }
        let num: i128 = d as i128 * n as i128;
        let den: i128 = (hi - lo) as i128;
        let q: i128 = num / den;
        proof {
            vstd::arithmetic::div_mod::lemma_div_pos_is_pos(num as int, den as int);
            vstd::arithmetic::div_mod::lemma_div_is_ordered(num as int, (den as int) * (n as int), den as int);
            vstd::arithmetic::div_mod::lemma_div_multiples_vanish(n as int, den as int);
        }
        let qu: usize = q as usize;
        if qu > n - 1 {
            n - 1
        } else {
            qu
        }
    }
}


/// Two grid views with the same bounds and dimensions.
pub open spec fn same_shape(a: GridView, b: GridView) -> bool {
    &&& a.bounds_min == b.bounds_min
    &&& a.bounds_max == b.bounds_max
    &&& a.nx == b.nx
    &&& a.ny == b.ny
    &&& a.nz == b.nz
}

impl SpatialGrid {
    /// Flattened index of an in-range key into the cell list.
    fn flat_of(&self, k: CellKey) -> (f: usize)
        requires
            self@.wf(),
            self@.in_range(k),
        ensures
            f == self@.flat(k),
            0 <= f < self@.cells.len(),
    {
        proof {
            lemma_flat_in_range(self@, k);
            let kx = k.x as int;
            let ky = k.y as int;
            let kz = k.z as int;
            let ny = self.ny as int;
            let nz = self.nz as int;
            assert(0 <= kx * ny + ky <= 1024 * 1024 && 0 <= (kx * ny + ky) * nz + kz <= 1024
                * 1024 * 1024 + 1024 * 1024 + 1024) by (nonlinear_arith)
                requires
                    0 <= kx <= 1023,
                    0 <= ky < ny,
                    0 <= kz < nz,
                    1 <= ny <= 1024,
                    1 <= nz <= 1024,
            ;
        }
        (k.x * self.ny + k.y) * self.nz + k.z
    }

    /// Appends `id` to the membership list of the cell `key`; fails with
    /// [`SpatialIndexError::UnknownCell`] exactly when the key is outside the
    /// initialized range, leaving the grid unchanged.
    pub fn insert(&mut self, key: CellKey, id: usize) -> (r: Result<(), SpatialIndexError>)
        requires
            old(self)@.wf(),
        ensures
            final(self)@.wf(),
            same_shape(final(self)@, old(self)@),
            match r {
                Ok(()) => {
                    &&& old(self)@.in_range(key)
                    &&& final(self)@.cells == old(self)@.cells.update(
                        old(self)@.flat(key),
                        old(self)@.members_of(key).push(id),
                    )
                    &&& final(self)@.total_count() == old(self)@.total_count() + 1
                },
                Err(e) => {
                    &&& e == (SpatialIndexError::UnknownCell { key })
                    &&& !old(self)@.in_range(key)
                    &&& final(self)@ == old(self)@
                },
            },
    {
        if key.x >= self.nx || key.y >= self.ny || key.z >= self.nz {
            return Err(SpatialIndexError::UnknownCell { key });
        }
        let f = self.flat_of(key);
        let ghost before = self@.cells;
        self.cells[f].push(id);
        proof {
            assert(self@.cells =~= before.update(f as int, before[f as int].push(id)));
            lemma_sum_lens_update(before, f as int, before[f as int].push(id));
        }
        Ok(())
    }

    /// Removes `id` from the membership list of the cell `key` (its first
    /// occurrence). Fails with [`SpatialIndexError::UnknownCell`] when the key
    /// is out of range and with [`SpatialIndexError::AgentNotInCell`] when the
    /// id is not present; either failure leaves the grid unchanged.
    pub fn remove(&mut self, key: CellKey, id: usize) -> (r: Result<(), SpatialIndexError>)
        requires
            old(self)@.wf(),
        ensures
            final(self)@.wf(),
            same_shape(final(self)@, old(self)@),
            match r {
                Ok(()) => {
                    &&& old(self)@.in_range(key)
                    &&& old(self)@.members_of(key).contains(id)
                    &&& final(self)@.cells == old(self)@.cells.update(
                        old(self)@.flat(key),
                        old(self)@.members_of(key).remove(
                            first_idx(old(self)@.members_of(key), id),
                        ),
                    )
                    &&& final(self)@.total_count() == old(self)@.total_count() - 1
                },
                Err(SpatialIndexError::UnknownCell { key: k }) => {
                    &&& k == key
                    &&& !old(self)@.in_range(key)
                    &&& final(self)@ == old(self)@
                },
                Err(SpatialIndexError::AgentNotInCell { key: k, id: i }) => {
                    &&& k == key
                    &&& i == id
                    &&& old(self)@.in_range(key)
                    &&& !old(self)@.members_of(key).contains(id)
                    &&& final(self)@ == old(self)@
                },
            },
    {
        if key.x >= self.nx || key.y >= self.ny || key.z >= self.nz {
            return Err(SpatialIndexError::UnknownCell { key });
        }
        let f = self.flat_of(key);
        match index_of_id(&self.cells[f], id) {
            Some(i) => {
                let ghost before = self@.cells;
                let ghost cell = before[f as int];
                proof {
                    assert(cell.contains(id)) by {
                        assert(cell[i as int] == id);
                    }
                    lemma_first_idx(cell, id);
                    assert(first_idx(cell, id) == i);
                }
                self.cells[f].remove(i);
                proof {
                    assert(self@.cells =~= before.update(f as int, cell.remove(i as int)));
                    lemma_sum_lens_update(before, f as int, cell.remove(i as int));
                }
                Ok(())
            },
            None => Err(SpatialIndexError::AgentNotInCell { key, id }),
        }
    }

    /// Moves `id` between two cells: a no-op when the keys are equal,
    /// otherwise a remove from the old cell followed by an insert into the
    /// new one, atomically (a failed step leaves the grid unchanged).
    pub fn relocate(&mut self, old_key: CellKey, new_key: CellKey, id: usize) -> (r: Result<
        (),
        SpatialIndexError,
    >)
        requires
            old(self)@.wf(),
        ensures
            final(self)@.wf(),
            same_shape(final(self)@, old(self)@),
            old_key == new_key ==> r == Ok::<(), SpatialIndexError>(()) && final(self)@ == old(
                self,
            )@,
            old_key != new_key ==> match r {
                Ok(()) => {
                    &&& old(self)@.in_range(old_key)
                    &&& old(self)@.in_range(new_key)
                    &&& old(self)@.members_of(old_key).contains(id)
                    &&& final(self)@.cells == {
                        let c1 = old(self)@.cells.update(
                            old(self)@.flat(old_key),
                            old(self)@.members_of(old_key).remove(
                                first_idx(old(self)@.members_of(old_key), id),
                            ),
                        );
                        c1.update(old(self)@.flat(new_key), c1[old(self)@.flat(new_key)].push(id))
                    }
                    &&& final(self)@.total_count() == old(self)@.total_count()
                },
                Err(SpatialIndexError::UnknownCell { key: k }) => {
                    &&& final(self)@ == old(self)@
                    &&& (k == new_key && !old(self)@.in_range(new_key)) || (k == old_key && old(
                        self,
                    )@.in_range(new_key) && !old(self)@.in_range(old_key))
                },
                Err(SpatialIndexError::AgentNotInCell { key: k, id: i }) => {
                    &&& final(self)@ == old(self)@
                    &&& k == old_key
                    &&& i == id
                    &&& old(self)@.in_range(old_key)
                    &&& old(self)@.in_range(new_key)
                    &&& !old(self)@.members_of(old_key).contains(id)
                },
            },
    {
        if old_key.x == new_key.x && old_key.y == new_key.y && old_key.z == new_key.z {
            return Ok(());
        }
        if new_key.x >= self.nx || new_key.y >= self.ny || new_key.z >= self.nz {
            return Err(SpatialIndexError::UnknownCell { key: new_key });
        }
        match self.remove(old_key, id) {
            Ok(()) => (),
            Err(e) => {
                return Err(e);
            },
        }
        match self.insert(new_key, id) {
            Ok(()) => Ok(()),
            Err(e) => {
                proof {
                    assert(false);
                }
                Err(e)
            },
        }
    }

    /// A copy of the membership list of the cell containing `position`: the
    /// same-cell neighbor query (agents in adjacent cells are never
    /// returned).
    pub fn neighbors_of(&self, position: &Vec3) -> (r: Vec<usize>)
        requires
            self@.wf(),
        ensures
            r@ == self@.members_of(self@.key_of(position@)),
    {
        let k = self.cell_key_of(position);
        let f = self.flat_of(k);
        let c = self.cells[f].clone();
        proof {
            assert(c@ =~= self@.cells[f as int]);
        }
        c
    }

    /// A copy of the membership list of the cell `key`; fails with
    /// [`SpatialIndexError::UnknownCell`] exactly when the key is out of
    /// range.
    pub fn members(&self, key: CellKey) -> (r: Result<Vec<usize>, SpatialIndexError>)
        requires
            self@.wf(),
        ensures
            match r {
                Ok(v) => self@.in_range(key) && v@ == self@.members_of(key),
                Err(e) => e == (SpatialIndexError::UnknownCell { key }) && !self@.in_range(key),
            },
    {
        if key.x >= self.nx || key.y >= self.ny || key.z >= self.nz {
            return Err(SpatialIndexError::UnknownCell { key });
        }
        let f = self.flat_of(key);
        let c = self.cells[f].clone();
        proof {
            assert(c@ =~= self@.cells[f as int]);
        }
        Ok(c)
    }
}


/// Index of the first occurrence of `id` in a membership list, if present.
fn index_of_id(c: &Vec<usize>, id: usize) -> (r: Option<usize>)
    ensures
        match r {
            Some(i) => {
                &&& i < c@.len()
                &&& c@[i as int] == id
                &&& forall|j: int| 0 <= j < i ==> c@[j] != id
            },
            None => !c@.contains(id),
        },
{
    let mut i: usize = 0;
    while i < c.len()
        invariant
            i <= c@.len(),
            forall|j: int| 0 <= j < i ==> c@[j] != id,
        decreases c@.len() - i,
    {
        if c[i] == id {
            return Some(i);
        }
        i = i + 1;
    }
    None
}


impl SpatialGrid {
    /// The two corners of the world bounds.
    pub fn bounds(&self) -> (r: (Vec3, Vec3))
        ensures
            r.0@ == self@.bounds_min,
            r.1@ == self@.bounds_max,
    {
        (self.bounds_min, self.bounds_max)
    }

    /// The grid dimensions along each axis.
    pub fn dims(&self) -> (r: (usize, usize, usize))
        ensures
            r.0 == self@.nx,
            r.1 == self@.ny,
            r.2 == self@.nz,
    {
        (self.nx, self.ny, self.nz)
    }
}


/// The position-to-cell mapping is total and clamps: every position maps to
/// an in-range key, and a position at or beyond the bounds on an axis maps
/// to the boundary cell on that axis.
pub proof fn lemma_key_of_clamps(g: GridView, p: SpecVec3)
    requires
        g.wf(),
    ensures
        g.in_range(g.key_of(p)),
        p.x <= g.bounds_min.x ==> g.key_of(p).x == 0,
        p.y <= g.bounds_min.y ==> g.key_of(p).y == 0,
        p.z <= g.bounds_min.z ==> g.key_of(p).z == 0,
        p.x >= g.bounds_max.x ==> g.key_of(p).x == g.nx - 1,
        p.y >= g.bounds_max.y ==> g.key_of(p).y == g.ny - 1,
        p.z >= g.bounds_max.z ==> g.key_of(p).z == g.nz - 1,
{
    lemma_axis_key_clamps(p.x, g.bounds_min.x, g.bounds_max.x, g.nx);
    lemma_axis_key_clamps(p.y, g.bounds_min.y, g.bounds_max.y, g.ny);
    lemma_axis_key_clamps(p.z, g.bounds_min.z, g.bounds_max.z, g.nz);
}

} // verus!
