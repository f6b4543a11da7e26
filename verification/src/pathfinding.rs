use vstd::prelude::*;
use std::collections::HashMap;
use crate::entities::World;
use crate::search::{abs_diff_spec, cheb};
use crate::types::Direction;

verus! {

broadcast use vstd::std_specs::hash::group_hash_axioms;

/// A* route finding over the terrain grid, 8-connected, plain cells only.
pub struct Pathfinder;

/// Cells whose coordinates fit in 32 bits; every cell the search touches
/// does, which keeps the packed cell keys collision free.
pub open spec fn cell_ok(c: (usize, usize)) -> bool {
    c.0 <= u32::MAX && c.1 <= u32::MAX
}

/// A cell key for the score maps: x in the high half, y in the low half.
spec fn pack(c: (usize, usize)) -> u64 {
    (c.0 * 0x1_0000_0000 + c.1) as u64
}

/// An in-bounds cell of plain terrain: the only cells the pathfinder routes
/// through.
pub open spec fn plain_cell(map: World, c: (usize, usize)) -> bool {
    &&& map.in_bounds(c.0 as int, c.1 as int)
    &&& map.terrain_at(c.0 as int, c.1 as int) == 0
}

/// One king move apart.
pub open spec fn adjacent8(a: (usize, usize), b: (usize, usize)) -> bool {
    cheb(a.0 as int, a.1 as int, b.0 as int, b.1 as int) == 1
}

/// A walkable route: it starts at `start`, ends at `goal`, each step is one
/// king move, and every cell after the first is an in-bounds plain cell.
pub open spec fn valid_path(
    map: World,
    path: Seq<(usize, usize)>,
    start: (usize, usize),
    goal: (usize, usize),
) -> bool {
    &&& path.len() >= 1
    &&& path[0] == start
    &&& path[path.len() - 1] == goal
    &&& forall|i: int| 0 <= i < path.len() - 1 ==> adjacent8(#[trigger] path[i], path[i + 1])
    &&& forall|i: int| 1 <= i < path.len() ==> plain_cell(map, #[trigger] path[i])
}

/// Some walkable route from `start` to `goal` exists.
pub open spec fn reachable(map: World, start: (usize, usize), goal: (usize, usize)) -> bool {
    exists|path: Seq<(usize, usize)>| valid_path(map, path, start, goal)
}

/// The coordinate headroom the search needs: cell coordinates, heuristic
/// sums and path costs then all stay below `u32::MAX`.
pub open spec fn coords_ok(map: World, start: (usize, usize), goal: (usize, usize)) -> bool {
    &&& start.0 + start.1 + goal.0 + goal.1 + map.width + map.height < u32::MAX
    &&& map.width * map.height + 2 < u32::MAX
}

/// Packed keys are collision free over 32-bit cells.
proof fn lemma_pack_injective(a: (usize, usize), b: (usize, usize))
    by (nonlinear_arith)
    requires
        cell_ok(a),
        cell_ok(b),
        pack(a) == pack(b),
    ensures
        a == b,
{
    assert(a.0 * 0x1_0000_0000 + a.1 <= u32::MAX * 0x1_0000_0000 + u32::MAX);
    assert(b.0 * 0x1_0000_0000 + b.1 <= u32::MAX * 0x1_0000_0000 + u32::MAX);
    assert(a.0 * 0x1_0000_0000 + a.1 == b.0 * 0x1_0000_0000 + b.1);
}

broadcast proof fn lemma_pack_injective_auto(a: (usize, usize), b: (usize, usize))
    ensures
        #![trigger pack(a), pack(b)]
        cell_ok(a) && cell_ok(b) && pack(a) == pack(b) ==> a == b,
{
    if cell_ok(a) && cell_ok(b) && pack(a) == pack(b) {
        lemma_pack_injective(a, b);
    }
}

/// The best-known cost to reach a cell, `u32::MAX` when none is known yet.
spec fn gval(g: Map<u64, u32>, c: (usize, usize)) -> int {
    if g.contains_key(pack(c)) {
        g[pack(c)] as int
    } else {
        u32::MAX as int
    }
}

/// Sum of the known costs over the first `w` cells of row `y`.
spec fn row_gsum(g: Map<u64, u32>, y: int, w: int) -> int
    decreases w,
{
    if w <= 0 {
        0
    } else {
        row_gsum(g, y, w - 1) + gval(g, (((w - 1) as usize), (y as usize)))
    }
}

/// Sum of the known costs over the first `h` rows of a `w`-column grid.
spec fn grid_gsum(g: Map<u64, u32>, h: int, w: int) -> int
    decreases h,
{
    if h <= 0 {
        0
    } else {
        grid_gsum(g, h - 1, w) + row_gsum(g, h - 1, w)
    }
}

/// The search's termination potential: every relaxation lowers some in-grid
/// cell's known cost, so this sum strictly decreases with each push.
spec fn potential(g: Map<u64, u32>, h: int, w: int) -> int {
    grid_gsum(g, h, w)
}

proof fn lemma_row_gsum_nonneg(g: Map<u64, u32>, y: int, w: int)
    ensures
        0 <= row_gsum(g, y, w),
    decreases w,
{
    if w > 0 {
        lemma_row_gsum_nonneg(g, y, w - 1);
    }
}

proof fn lemma_grid_gsum_nonneg(g: Map<u64, u32>, h: int, w: int)
    ensures
        0 <= grid_gsum(g, h, w),
    decreases h,
{
    if h > 0 {
        lemma_grid_gsum_nonneg(g, h - 1, w);
        lemma_row_gsum_nonneg(g, h - 1, w);
    }
}

proof fn lemma_row_gsum_insert(g: Map<u64, u32>, c: (usize, usize), v: u32, y: int, w: int)
    requires
        cell_ok(c),
        0 <= y <= u32::MAX,
        w <= u32::MAX + 1,
        (v as int) < gval(g, c),
    ensures
        row_gsum(g.insert(pack(c), v), y, w) == row_gsum(g, y, w) - (
        if c.1 == y && c.0 < w {
            gval(g, c) - v
        } else {
            0int
        }),
    decreases w,
{
    broadcast use lemma_pack_injective_auto;

    if w > 0 {
        lemma_row_gsum_insert(g, c, v, y, w - 1);
        let cell = ((((w - 1) as usize)), (y as usize));
        if cell == c {
            assert(gval(g.insert(pack(c), v), c) == v as int);
        } else {
            assert(cell_ok(cell));
            assert(pack(cell) != pack(c));
            assert(gval(g.insert(pack(c), v), cell) == gval(g, cell));
        }
    }
}

proof fn lemma_grid_gsum_insert(g: Map<u64, u32>, c: (usize, usize), v: u32, h: int, w: int)
    requires
        cell_ok(c),
        h <= u32::MAX + 1,
        w <= u32::MAX + 1,
        (v as int) < gval(g, c),
    ensures
        grid_gsum(g.insert(pack(c), v), h, w) == grid_gsum(g, h, w) - (
        if c.1 < h && c.0 < w {
            gval(g, c) - v
        } else {
            0int
        }),
    decreases h,
{
    if h > 0 {
        lemma_grid_gsum_insert(g, c, v, h - 1, w);
        lemma_row_gsum_insert(g, c, v, h - 1, w);
    }
}

/// Inserting a strictly smaller cost for an in-grid cell strictly lowers
/// the potential, by at least the improvement.
proof fn lemma_potential_insert(g: Map<u64, u32>, c: (usize, usize), v: u32, h: int, w: int)
    requires
        cell_ok(c),
        0 <= c.0 < w,
        0 <= c.1 < h,
        h <= u32::MAX + 1,
        w <= u32::MAX + 1,
        (v as int) < gval(g, c),
    ensures
        potential(g.insert(pack(c), v), h, w) <= potential(g, h, w) - (gval(g, c) - v),
{
    lemma_grid_gsum_insert(g, c, v, h, w);
}

/// The packed keys of one grid column (x fixed, y below h).
spec fn packed_col(x: int, h: int) -> Set<u64>
    decreases h,
{
    if h <= 0 {
        Set::empty()
    } else {
        packed_col(x, h - 1).insert(pack(((x as usize), ((h - 1) as usize))))
    }
}

/// The packed keys of every cell of a w-by-h grid.
spec fn packed_cells(w: int, h: int) -> Set<u64>
    decreases w,
{
    if w <= 0 {
        Set::empty()
    } else {
        packed_cells(w - 1, h).union(packed_col(w - 1, h))
    }
}

proof fn lemma_packed_col_len(x: int, h: int)
    ensures
        packed_col(x, h).finite(),
        packed_col(x, h).len() <= (if h >= 0 {
            h
        } else {
            0int
        }),
    decreases h,
{
    if h > 0 {
        lemma_packed_col_len(x, h - 1);
    }
}

proof fn lemma_packed_cells_len(w: int, h: int)
    requires
        h >= 0,
    ensures
        packed_cells(w, h).finite(),
        packed_cells(w, h).len() <= (if w >= 0 {
            w * h
        } else {
            0int
        }),
    decreases w,
{
    if w > 0 {
        lemma_packed_cells_len(w - 1, h);
        lemma_packed_col_len(w - 1, h);
        vstd::set_lib::lemma_len_union(packed_cells(w - 1, h), packed_col(w - 1, h));
        assert((w - 1) * h + h == w * h) by (nonlinear_arith);
    }
}

proof fn lemma_packed_col_contains(x: int, h: int, c: (usize, usize))
    requires
        c.0 == x,
        0 <= c.1 < h,
    ensures
        packed_col(x, h).contains(pack(c)),
    decreases h,
{
    if c.1 < h - 1 {
        lemma_packed_col_contains(x, h - 1, c);
    }
}

proof fn lemma_packed_cells_contains(w: int, h: int, c: (usize, usize))
    requires
        0 <= c.0 < w,
        0 <= c.1 < h,
    ensures
        packed_cells(w, h).contains(pack(c)),
    decreases w,
{
    if c.0 == w - 1 {
        lemma_packed_col_contains(w - 1, h, c);
    } else {
        lemma_packed_cells_contains(w - 1, h, c);
    }
}

/// Whether some open-list entry is for cell `c`.
spec fn has_open_entry(op: Seq<(u64, (usize, usize))>, c: (usize, usize)) -> bool {
    exists|i: int| 0 <= i < op.len() && (#[trigger] op[i]).1 == c
}

/// Every plain neighbor of `c` already has a known cost.
spec fn neighbors_keyed(map: World, g: Map<u64, u32>, c: (usize, usize)) -> bool {
    forall|n: (usize, usize)|
        cell_ok(n) && plain_cell(map, n) && adjacent8(c, n) ==> g.contains_key(#[trigger] pack(n))
}

/// The parent-link facts the invariant grants one scored non-start cell.
spec fn cf_step(
    map: World,
    start: (usize, usize),
    g: Map<u64, u32>,
    c: (usize, usize),
    p: (usize, usize),
) -> bool {
    &&& c != start
    &&& g.contains_key(pack(c))
    &&& cell_ok(p)
    &&& g.contains_key(pack(p))
    &&& adjacent8(p, c)
    &&& gval(g, c) >= gval(g, p) + 1
}

/// The off-list parts of the search state invariant.
///
/// The start is scored zero. Every key is the packed form of the start or
/// of an in-bounds cell, every score is below `u32::MAX` and at most the
/// number of scored cells. Every scored cell other than the start is plain
/// and has a parent link, and parent links step one king move, stay scored,
/// and strictly descend in cost toward the start.
spec fn scores_inv(
    map: World,
    start: (usize, usize),
    g: Map<u64, u32>,
    cf: Map<u64, (usize, usize)>,
) -> bool {
    &&& g.contains_key(pack(start))
    &&& g[pack(start)] == 0
    &&& forall|k: u64| #[trigger] g.contains_key(k) ==> g[k] < u32::MAX
    &&& forall|k: u64| #[trigger] g.contains_key(k) ==> g[k] <= g.dom().len()
    &&& forall|k: u64|
        #[trigger] g.contains_key(k) ==> exists|c: (usize, usize)|
            cell_ok(c) && (c == start || map.in_bounds(c.0 as int, c.1 as int)) && #[trigger] pack(
                c,
            ) == k
    &&& forall|c: (usize, usize)|
        cell_ok(c) && #[trigger] g.contains_key(pack(c)) && c != start ==> plain_cell(map, c)
            && cf.contains_key(pack(c))
    &&& forall|c: (usize, usize)|
        cell_ok(c) && #[trigger] cf.contains_key(pack(c)) ==> cf_step(
            map,
            start,
            g,
            c,
            cf[pack(c)],
        )
}

/// The scored region holds at most one score per grid cell, plus one for
/// the start.
proof fn lemma_dom_bound(
    map: World,
    start: (usize, usize),
    g: Map<u64, u32>,
    cf: Map<u64, (usize, usize)>,
)
    requires
        scores_inv(map, start, g, cf),
        g.dom().finite(),
    ensures
        g.dom().len() <= map.width * map.height + 1,
{
    let w = map.width as int;
    let h = map.height as int;
    let big = packed_cells(w, h).insert(pack(start));
    lemma_packed_cells_len(w, h);
    assert forall|k: u64| g.dom().contains(k) implies big.contains(k) by {
        assert(g.contains_key(k));
        let c = choose|c: (usize, usize)|
            cell_ok(c) && (c == start || map.in_bounds(c.0 as int, c.1 as int)) && #[trigger] pack(
                c,
            ) == k;
        if c != start {
            lemma_packed_cells_contains(w, h, c);
        }
    }
    assert(g.dom() <= big);
    vstd::set_lib::lemma_len_subset(g.dom(), big);
}

/// A scored cell is still on the open list, or has already handed a score
/// to every plain neighbor; `exempt` is the cell being expanded right now.
spec fn closure_inv(
    map: World,
    g: Map<u64, u32>,
    op: Seq<(u64, (usize, usize))>,
    exempt: Option<(usize, usize)>,
) -> bool {
    forall|c: (usize, usize)|
        cell_ok(c) && #[trigger] g.contains_key(pack(c)) && Some(c) != exempt ==> has_open_entry(
            op,
            c,
        ) || neighbors_keyed(map, g, c)
}

/// Every open entry is a 32-bit cell that already has a score.
spec fn open_entries_inv(g: Map<u64, u32>, op: Seq<(u64, (usize, usize))>) -> bool {
    forall|i: int|
        0 <= i < op.len() ==> cell_ok((#[trigger] op[i]).1) && g.contains_key(pack(op[i].1))
}

/// While the goal is scored it keeps an open entry, so an emptied open list
/// means the goal was never scored.
spec fn goal_open_inv(goal: (usize, usize), g: Map<u64, u32>, op: Seq<(u64, (usize, usize))>)
    -> bool {
    g.contains_key(pack(goal)) ==> has_open_entry(op, goal)
}

/// Whether the neighbor-expansion loops, at offset position (ox, oy), have
/// already visited the plain neighbor cell (nx, ny) of `cpos`: all offsets
/// lexicographically before (ox, oy), the center skipped.
spec fn neighbor_done(map: World, cpos: (usize, usize), nx: int, ny: int, ox: int, oy: int) -> bool {
    &&& map.in_bounds(nx, ny)
    &&& map.terrain_at(nx, ny) == 0
    &&& !(nx == cpos.0 && ny == cpos.1)
    &&& -1 <= nx - cpos.0 <= 1
    &&& -1 <= ny - cpos.1 <= 1
    &&& (nx - cpos.0 < ox || (nx - cpos.0 == ox && ny - cpos.1 < oy))
}

/// Every cell of a walkable route out of a neighbor-closed scored region is
/// scored.
proof fn lemma_path_stays_keyed(
    map: World,
    g: Map<u64, u32>,
    path: Seq<(usize, usize)>,
    start: (usize, usize),
    goal: (usize, usize),
    n: int,
)
    requires
        valid_path(map, path, start, goal),
        cell_ok(start),
        map.width <= u32::MAX,
        map.height <= u32::MAX,
        g.contains_key(pack(start)),
        forall|c: (usize, usize)|
            cell_ok(c) && #[trigger] g.contains_key(pack(c)) ==> neighbors_keyed(map, g, c),
        0 <= n < path.len(),
    ensures
        cell_ok(path[n]) && g.contains_key(pack(path[n])),
    decreases n,
{
    if n > 0 {
        lemma_path_stays_keyed(map, g, path, start, goal, n - 1);
        let prev = path[n - 1];
        let cur = path[n];
        assert(adjacent8(prev, cur));
        assert(plain_cell(map, cur));
        assert(cell_ok(cur));
        assert(neighbors_keyed(map, g, prev));
        assert(g.contains_key(pack(cur)));
    }
}

impl Pathfinder {
    pub fn new() -> (r: Pathfinder) {
        Pathfinder
    }

    /// The Manhattan distance |dx| + |dy|: admissible for king moves, though
    /// not tight — an accepted design trade-off.
    pub open spec fn heuristic_spec(a: (usize, usize), b: (usize, usize)) -> int {
        abs_diff_spec(a.0 as int, b.0 as int) + abs_diff_spec(a.1 as int, b.1 as int)
    }

    pub fn heuristic(&self, a: (usize, usize), b: (usize, usize)) -> (r: u32)
        requires
            Self::heuristic_spec(a, b) <= u32::MAX,
        ensures
            r == Self::heuristic_spec(a, b),
    {
        let dx = if a.0 > b.0 {
            a.0 - b.0
        } else {
            b.0 - a.0
        };
        let dy = if a.1 > b.1 {
            a.1 - b.1
        } else {
            b.1 - a.1
        };
        (dx + dy) as u32
    }

    /// A* from `start` to `goal`. `Some` holds a walkable route, inclusive
    /// of both ends, and is exactly `[start]` when the two coincide; `None`
    /// comes precisely when no walkable route exists — a goal out of bounds
    /// or walled off.
    #[verifier::rlimit(100)]
    pub fn find_path(&self, start: (usize, usize), goal: (usize, usize), map: &World) -> (r:
        Option<Vec<(usize, usize)>>)
        requires
            map.wf(),
            coords_ok(*map, start, goal),
        ensures
            match r {
                Some(path) => {
                    &&& valid_path(*map, path@, start, goal)
                    &&& (start == goal ==> path@ == seq![start])
                },
                None => !reachable(*map, start, goal),
            },
            start == goal ==> r is Some,
    {
        broadcast use lemma_pack_injective_auto;

        let ghost w = map.width as int;
        let ghost h = map.height as int;
        let mut open: Vec<(u64, (usize, usize))> = Vec::new();
        let mut came_from: HashMap<u64, (usize, usize)> = HashMap::new();
        let mut g_score: HashMap<u64, u32> = HashMap::new();

        let start_key = pack_key(start);
        g_score.insert(start_key, 0);
        open.push((heuristic64(start, goal), start));

        proof {
            lemma_grid_gsum_nonneg(g_score@, h, w);
            assert(open@[0].1 == start);
            assert(has_open_entry(open@, start));
            assert forall|c: (usize, usize)|
                cell_ok(c) && #[trigger] g_score@.contains_key(pack(c)) implies has_open_entry(
                open@,
                c,
            ) by {
                assert(pack(c) == pack(start));
                assert(c == start);
            }
        }

        while open.len() > 0
            invariant
                map.wf(),
                coords_ok(*map, start, goal),
                w == map.width,
                h == map.height,
                scores_inv(*map, start, g_score@, came_from@),
                open_entries_inv(g_score@, open@),
                closure_inv(*map, g_score@, open@, None),
                goal_open_inv(goal, g_score@, open@),
            decreases potential(g_score@, h, w), open@.len(),
        {
            // Pop the entry with the smallest f-cost; cost ties are broken
            // arbitrarily, which only shapes the route, never its validity.
            let mut best: usize = 0;
            let mut i: usize = 1;
            while i < open.len()
                invariant
                    open@.len() >= 1,
                    best < i,
                    1 <= i <= open@.len(),
                decreases open@.len() - i,
            {
                if open[i].0 < open[best].0 {
                    best = i;
                }
                i += 1;
            }
            let ghost op_before = open@;
            let current = open.swap_remove(best);
            let cpos = current.1;
            let ghost pot0 = potential(g_score@, h, w);
            let ghost len0 = open@.len();

            proof {
                assert(op_before[best as int].1 == cpos);
                assert(cell_ok(cpos) && g_score@.contains_key(pack(cpos)));
                assert forall|c: (usize, usize)|
                    has_open_entry(op_before, c) && c != cpos implies has_open_entry(
                    open@,
                    c,
                ) by {
                    let j = choose|j: int| 0 <= j < op_before.len() && op_before[j].1 == c;
                    if j == op_before.len() - 1 {
                        if best < op_before.len() - 1 {
                            assert(open@[best as int] == op_before[j]);
                        }
                    } else if j != best {
                        assert(open@[j] == op_before[j]);
                    }
                }
            }

            if cpos.0 == goal.0 && cpos.1 == goal.1 {
                proof {
                    assert(cpos == goal);
                }
                let path = reconstruct(map, start, goal, &came_from, &g_score);
                return Some(path);
            }

            // Expand the eight neighbor offsets, dx then dy ascending.
            let mut ox: i64 = -1;
            while ox <= 1
                invariant
                    map.wf(),
                    coords_ok(*map, start, goal),
                    w == map.width,
                    h == map.height,
                    -1 <= ox <= 2,
                    cell_ok(cpos),
                    cpos != goal,
                    g_score@.contains_key(pack(cpos)),
                    scores_inv(*map, start, g_score@, came_from@),
                    open_entries_inv(g_score@, open@),
                    closure_inv(*map, g_score@, open@, Some(cpos)),
                    goal_open_inv(goal, g_score@, open@),
                    potential(g_score@, h, w) <= pot0,
                    potential(g_score@, h, w) == pot0 ==> open@.len() == len0,
                    forall|nx: int, ny: int|
                        neighbor_done(*map, cpos, nx, ny, ox as int, -1) ==> g_score@.contains_key(
                            #[trigger] pack(((nx as usize), (ny as usize))),
                        ),
                decreases 2 - ox,
            {
                let mut oy: i64 = -1;
                while oy <= 1
                    invariant
                        map.wf(),
                        coords_ok(*map, start, goal),
                        w == map.width,
                        h == map.height,
                        -1 <= ox <= 1,
                        -1 <= oy <= 2,
                        cell_ok(cpos),
                        cpos != goal,
                        g_score@.contains_key(pack(cpos)),
                        scores_inv(*map, start, g_score@, came_from@),
                        open_entries_inv(g_score@, open@),
                        closure_inv(*map, g_score@, open@, Some(cpos)),
                        goal_open_inv(goal, g_score@, open@),
                        potential(g_score@, h, w) <= pot0,
                        potential(g_score@, h, w) == pot0 ==> open@.len() == len0,
                        forall|nx: int, ny: int|
                            neighbor_done(*map, cpos, nx, ny, ox as int, oy as int) ==> g_score@
                                .contains_key(#[trigger] pack(((nx as usize), (ny as usize)))),
                    decreases 2 - oy,
                {
                    let ghost g_before = g_score@;
                    let ghost op_b = open@;
                    if !(ox == 0 && oy == 0) {
                        let nx = cpos.0 as i64 + ox;
                        let ny = cpos.1 as i64 + oy;
                        if nx >= 0 && ny >= 0 && (nx as u64) < map.width as u64 && (ny as u64)
                            < map.height as u64 {
                            let nxt = (nx as usize, ny as usize);
                            if map.terrain[nxt.1][nxt.0] == 0 {
                                proof {
                                    assert(cell_ok(nxt));
                                    assert(plain_cell(*map, nxt));
                                    assert(nxt.0 as int == cpos.0 + ox as int);
                                    assert(nxt.1 as int == cpos.1 + oy as int);
                                    assert(adjacent8(cpos, nxt));
                                    assert(nxt != cpos);
                                    lemma_dom_bound(*map, start, g_score@, came_from@);
                                }
                                let gcur = match g_score.get(&pack_key(cpos)) {
                                    Some(v) => *v,
                                    None => {
                                        proof {
                                            assert(false);
                                        }
                                        0
                                    },
                                };
                                let tentative = gcur + 1;
                                let existing = match g_score.get(&pack_key(nxt)) {
                                    Some(v) => *v,
                                    None => u32::MAX,
                                };
                                proof {
                                    assert(gval(g_score@, nxt) == existing);
                                    assert(tentative <= map.width * map.height + 2);
                                    assert(tentative < u32::MAX);
                                }
                                if tentative < existing {
                                    proof {
                                        lemma_potential_insert(g_score@, nxt, tentative, h, w);
                                    }
                                    came_from.insert(pack_key(nxt), cpos);
                                    g_score.insert(pack_key(nxt), tentative);
                                    let f = tentative as u64 + heuristic64(nxt, goal);
                                    open.push((f, nxt));
                                    proof {
                                        let g_now = g_score@;
                                        let cf_now = came_from@;
                                        assert(open@[op_b.len() as int].1 == nxt);
                                        assert(has_open_entry(open@, nxt));
                                        assert forall|c: (usize, usize)|
                                            has_open_entry(op_b, c) implies has_open_entry(
                                            open@,
                                            c,
                                        ) by {
                                            let j = choose|j: int|
                                                0 <= j < op_b.len() && op_b[j].1 == c;
                                            assert(open@[j] == op_b[j]);
                                        }
                                        // the parent-link facts, cell by cell
                                        assert forall|c: (usize, usize)|
                                            cell_ok(c) && #[trigger] cf_now.contains_key(
                                                pack(c),
                                            ) implies cf_step(
                                            *map,
                                            start,
                                            g_now,
                                            c,
                                            cf_now[pack(c)],
                                        ) by {
                                            if pack(c) == pack(nxt) {
                                                assert(c == nxt);
                                                assert(gval(g_now, nxt) == tentative as int);
                                                assert(gval(g_now, cpos) == gcur as int);
                                            } else {
                                                assert(cf_step(
                                                    *map,
                                                    start,
                                                    g_before,
                                                    c,
                                                    cf_now[pack(c)],
                                                ));
                                                let p = cf_now[pack(c)];
                                                assert(gval(g_now, c) == gval(g_before, c));
                                                if pack(p) == pack(nxt) {
                                                    assert(gval(g_now, p) <= gval(g_before, p));
                                                } else {
                                                    assert(gval(g_now, p) == gval(g_before, p));
                                                }
                                            }
                                        }
                                    }
                                }
                            }
                        }
                    }
                    proof {
                        // the offset just visited is settled either way
                        assert forall|nx2: int, ny2: int|
                            neighbor_done(*map, cpos, nx2, ny2, ox as int, oy as int + 1) implies
                            g_score@.contains_key(
                            #[trigger] pack(((nx2 as usize), (ny2 as usize))),
                        ) by {
                            if nx2 - cpos.0 < ox || (nx2 - cpos.0 == ox && ny2 - cpos.1 < oy) {
                                assert(neighbor_done(*map, cpos, nx2, ny2, ox as int, oy as int));
                            } else {
                                assert(nx2 == cpos.0 + ox && ny2 == cpos.1 + oy);
                            }
                        }
                    }
                    oy += 1;
                }
                ox += 1;
            }
            proof {
                // all eight offsets are handled: cpos's closure is restored
                assert forall|n: (usize, usize)|
                    cell_ok(n) && plain_cell(*map, n) && adjacent8(cpos, n) implies g_score@
                    .contains_key(pack(n)) by {
                    let nx = n.0 as int;
                    let ny = n.1 as int;
                    assert(neighbor_done(*map, cpos, nx, ny, 2, -1));
                    assert(pack(((nx as usize), (ny as usize))) == pack(n));
                }
                assert(neighbors_keyed(*map, g_score@, cpos));
                assert(closure_inv(*map, g_score@, open@, None));
                lemma_grid_gsum_nonneg(g_score@, h, w);
            }
        }
        proof {
            // the open list is exhausted: the scored region is closed under
            // plain neighbors and misses the goal, so no route reaches it
            assert(!g_score@.contains_key(pack(goal)));
            assert(cell_ok(start));
            if reachable(*map, start, goal) {
                let pth = choose|p: Seq<(usize, usize)>| valid_path(*map, p, start, goal);
                assert forall|c: (usize, usize)|
                    cell_ok(c) && #[trigger] g_score@.contains_key(pack(c)) implies
                    neighbors_keyed(*map, g_score@, c) by {
                    assert(!has_open_entry(open@, c));
                }
                lemma_path_stays_keyed(*map, g_score@, pth, start, goal, pth.len() - 1);
                assert(false);
            }
            // in particular the trivial route rules out start == goal
            if start == goal {
                assert(valid_path(*map, seq![start], start, goal));
                assert(false);
            }
        }
        None
    }

    /// The single king-move step toward `target`: the direction of the
    /// second cell of a found route. `None` exactly when already there or
    /// when no route exists.
    pub fn get_next_move(&self, current: (usize, usize), target: (usize, usize), map: &World)
        -> (r: Option<Direction>)
        requires
            map.wf(),
            coords_ok(*map, current, target),
        ensures
            match r {
                Some(d) => current != target && reachable(*map, current, target) && ({
                    let delta = d.delta_spec();
                    let n = (((current.0 + delta.0) as usize), ((current.1 + delta.1) as usize));
                    &&& plain_cell(*map, n)
                    &&& adjacent8(current, n)
                    &&& reachable(*map, n, target)
                }),
                None => current == target || !reachable(*map, current, target),
            },
    {
        if let Some(path) = self.find_path(current, target, map) {
            if path.len() > 1 {
                let next_pos = path[1];
                proof {
                    assert(path@[0] == current);
                    assert(adjacent8(path@[0int], path@[0int + 1]));
                    assert(plain_cell(*map, path@[1]));
                    let tail = path@.subrange(1, path@.len() as int);
                    assert(tail[0] == path@[1]);
                    assert(tail[tail.len() - 1] == path@[path@.len() - 1]);
                    assert forall|i: int| 0 <= i < tail.len() - 1 implies adjacent8(
                        #[trigger] tail[i],
                        tail[i + 1],
                    ) by {
                        assert(tail[i] == path@[i + 1]);
                        assert(tail[i + 1] == path@[i + 2]);
                        assert(adjacent8(path@[i + 1], path@[(i + 1) + 1]));
                    }
                    assert forall|i: int| 1 <= i < tail.len() implies plain_cell(
                        *map,
                        #[trigger] tail[i],
                    ) by {
                        assert(tail[i] == path@[i + 1]);
                    }
                    assert(valid_path(*map, tail, next_pos, target));
                    assert(reachable(*map, next_pos, target));
                    assert(valid_path(*map, path@, current, target));
                    assert(reachable(*map, current, target));
                    // the two ends differ, else the route had length 1
                    if current == target {
                        assert(path@ == seq![current]);
                        assert(false);
                    }
                }
                let dx = next_pos.0 as i64 - current.0 as i64;
                let dy = next_pos.1 as i64 - current.1 as i64;
                proof {
                    assert(-1 <= dx <= 1 && -1 <= dy <= 1 && !(dx == 0 && dy == 0));
                }
                match (dx, dy) {
                    (0, -1) => Some(Direction::North),
                    (0, 1) => Some(Direction::South),
                    (1, 0) => Some(Direction::East),
                    (-1, 0) => Some(Direction::West),
                    (1, -1) => Some(Direction::Northeast),
                    (-1, -1) => Some(Direction::Northwest),
                    (1, 1) => Some(Direction::Southeast),
                    (-1, 1) => Some(Direction::Southwest),
                    _ => {
                        proof {
                            assert(false);
                        }
                        None
                    },
                }
            } else {
                proof {
                    assert(path@.len() == 1);
                }
                None
            }
        } else {
            None
        }
    }
}

/// Walks the parent links back from the goal and reverses the walk into
/// the returned route.
fn reconstruct(
    map: &World,
    start: (usize, usize),
    goal: (usize, usize),
    came_from: &HashMap<u64, (usize, usize)>,
    g_score: &HashMap<u64, u32>,
) -> (r: Vec<(usize, usize)>)
    requires
        map.wf(),
        cell_ok(start),
        cell_ok(goal),
        scores_inv(*map, start, g_score@, came_from@),
        g_score@.contains_key(pack(goal)),
    ensures
        valid_path(*map, r@, start, goal),
        start == goal ==> r@ == seq![start],
{
    let mut back: Vec<(usize, usize)> = Vec::new();
    back.push(goal);
    let mut current_pos = goal;
    proof {
        assert(back@ =~= seq![goal]);
    }
    while came_from.contains_key(&pack_key(current_pos))
        invariant
            map.wf(),
            scores_inv(*map, start, g_score@, came_from@),
            cell_ok(current_pos),
            cell_ok(start),
            cell_ok(goal),
            g_score@.contains_key(pack(current_pos)),
            back@.len() >= 1,
            back@[0] == goal,
            back@[back@.len() - 1] == current_pos,
            back@.len() > 1 ==> goal != start,
            forall|k: int|
                0 <= k < back@.len() - 1 ==> adjacent8(back@[k + 1], #[trigger] back@[k]),
            forall|k: int| 0 <= k < back@.len() - 1 ==> plain_cell(*map, #[trigger] back@[k]),
        decreases gval(g_score@, current_pos),
    {
        let parent = match came_from.get(&pack_key(current_pos)) {
            Some(p) => *p,
            None => {
                proof {
                    assert(false);
                }
                current_pos
            },
        };
        back.push(parent);
        current_pos = parent;
    }
    proof {
        // a scored cell with no parent link is the start
        assert(current_pos == start);
    }
    let mut path: Vec<(usize, usize)> = Vec::new();
    let mut k = back.len();
    while k > 0
        invariant
            k <= back@.len(),
            path@.len() == back@.len() - k,
            forall|j: int|
                0 <= j < path@.len() ==> #[trigger] path@[j] == back@[back@.len() - 1 - j],
        decreases k,
    {
        k -= 1;
        path.push(back[k]);
    }
    proof {
        assert(path@.len() == back@.len());
        assert(path@[0] == back@[back@.len() - 1]);
        assert(path@[path@.len() - 1] == back@[0]);
        assert forall|j: int| 0 <= j < path@.len() - 1 implies adjacent8(
            #[trigger] path@[j],
            path@[j + 1],
        ) by {
            assert(path@[j] == back@[back@.len() - 1 - j]);
            assert(path@[j + 1] == back@[back@.len() - 1 - (j + 1)]);
        }
        assert forall|j: int| 1 <= j < path@.len() implies plain_cell(
            *map,
            #[trigger] path@[j],
        ) by {
            assert(path@[j] == back@[back@.len() - 1 - j]);
        }
        assert(valid_path(*map, path@, start, goal));
        if start == goal {
            assert(back@.len() == 1);
            assert(path@ =~= seq![start]);
        }
    }
    path
}

/// The packed cell key, as executable code.
fn pack_key(c: (usize, usize)) -> (k: u64)
    requires
        cell_ok(c),
    ensures
        k == pack(c),
{
    proof {
        assert(c.0 * 0x1_0000_0000 + c.1 <= u32::MAX * 0x1_0000_0000 + u32::MAX)
            by (nonlinear_arith)
            requires
                c.0 <= u32::MAX && c.1 <= u32::MAX,
        ;
    }
    (c.0 as u64) * 0x1_0000_0000u64 + (c.1 as u64)
}

/// The Manhattan heuristic widened to u64, so f-costs cannot overflow.
fn heuristic64(a: (usize, usize), b: (usize, usize)) -> (r: u64)
    requires
        a.0 <= u32::MAX,
        a.1 <= u32::MAX,
        b.0 <= u32::MAX,
        b.1 <= u32::MAX,
    ensures
        r == Pathfinder::heuristic_spec(a, b),
{
    let dx = if a.0 > b.0 {
        a.0 - b.0
    } else {
        b.0 - a.0
    };
    let dy = if a.1 > b.1 {
        a.1 - b.1
    } else {
        b.1 - a.1
    };
    dx as u64 + dy as u64
}

} // verus!
