use vstd::prelude::*;
use crate::entities::{ResourceType, World};

verus! {

/// Radius-expanding searches over the grid, shared by the robot behaviors.
pub struct SearchUtils;

/// |a - b| as a mathematical integer.
pub open spec fn abs_diff_spec(a: int, b: int) -> int {
    if a >= b {
        a - b
    } else {
        b - a
    }
}

/// Chebyshev (king-move) distance between cells (ax, ay) and (bx, by).
pub open spec fn cheb(ax: int, ay: int, bx: int, by: int) -> int {
    let dx = abs_diff_spec(ax, bx);
    let dy = abs_diff_spec(ay, by);
    if dx >= dy {
        dx
    } else {
        dy
    }
}

/// Whether the expanding scan from (rx, ry) with the given maximum radius
/// visits cell (x, y) of world `w` at all: the scan runs the passes 1 up to
/// the maximum radius, each over the full square window of that radius,
/// clipped to the world bounds.
pub open spec fn in_window(w: World, rx: int, ry: int, radius: int, x: int, y: int) -> bool {
    &&& w.in_bounds(x, y)
    &&& 1 <= radius
    &&& cheb(x, y, rx, ry) <= radius
}

/// Where the expanding scan from (rx, ry) first visits cell (x, y): the
/// pass of the first visit, then the cell's (dx, dy) offset. Every pass
/// rescans the full square window, so a cell at Chebyshev distance c is
/// first visited in pass max(1, c); within a pass the scan runs dx
/// ascending, then dy ascending.
pub open spec fn scan_key(rx: int, ry: int, x: int, y: int) -> (int, int, int) {
    let c = cheb(x, y, rx, ry);
    (if c < 1 { 1 } else { c }, x - rx, y - ry)
}

/// Lexicographic order on scan keys: visited no later than.
pub open spec fn key_le(a: (int, int, int), b: (int, int, int)) -> bool {
    ||| a.0 < b.0
    ||| (a.0 == b.0 && a.1 < b.1)
    ||| (a.0 == b.0 && a.1 == b.1 && a.2 <= b.2)
}

/// Visited strictly earlier.
pub open spec fn key_lt(a: (int, int, int), b: (int, int, int)) -> bool {
    key_le(a, b) && a != b
}

/// The scan-key order is total and antisymmetric.
pub proof fn lemma_key_le_total(a: (int, int, int), b: (int, int, int))
    ensures
        key_le(a, b) || key_le(b, a),
        key_le(a, b) && key_le(b, a) ==> a == b,
{
    if key_le(a, b) && key_le(b, a) {
        assert(a.0 == b.0 && a.1 == b.1 && a.2 == b.2);
        assert(a == b);
    }
}

/// The cell holds a deposit of one of the allowed kinds.
pub open spec fn resource_match(w: World, allowed: Seq<ResourceType>, x: int, y: int) -> bool {
    match w.res_at(x, y) {
        Some(p) => allowed.contains(p.0),
        None => false,
    }
}

/// The cell is undiscovered and traversable (plain terrain).
pub open spec fn unexplored_match(w: World, x: int, y: int) -> bool {
    &&& !w.discovered_at(x, y)
    &&& w.terrain_at(x, y) == 0
}

/// The cell holds a scientific-interest deposit.
pub open spec fn sci_match(w: World, x: int, y: int) -> bool {
    match w.res_at(x, y) {
        Some(p) => p.0 == ResourceType::ScientificInterest,
        None => false,
    }
}

/// `c` is the first visited cell of the expanding scan from (rx, ry) out to
/// `radius` that holds a deposit of an allowed kind.
pub open spec fn is_first_resource_match(
    w: World,
    allowed: Seq<ResourceType>,
    rx: int,
    ry: int,
    radius: int,
    c: (usize, usize),
) -> bool {
    &&& in_window(w, rx, ry, radius, c.0 as int, c.1 as int)
    &&& resource_match(w, allowed, c.0 as int, c.1 as int)
    &&& forall|x: int, y: int|
        in_window(w, rx, ry, radius, x, y) && resource_match(w, allowed, x, y) ==> key_le(
            scan_key(rx, ry, c.0 as int, c.1 as int),
            #[trigger] scan_key(rx, ry, x, y),
        )
}

/// No cell the scan visits holds a deposit of an allowed kind.
pub open spec fn no_resource_match_within(
    w: World,
    allowed: Seq<ResourceType>,
    rx: int,
    ry: int,
    radius: int,
) -> bool {
    forall|x: int, y: int|
        #[trigger] in_window(w, rx, ry, radius, x, y) ==> !resource_match(w, allowed, x, y)
}

/// `c` is the first visited cell that is undiscovered and traversable.
pub open spec fn is_first_unexplored(
    w: World,
    rx: int,
    ry: int,
    radius: int,
    c: (usize, usize),
) -> bool {
    &&& in_window(w, rx, ry, radius, c.0 as int, c.1 as int)
    &&& unexplored_match(w, c.0 as int, c.1 as int)
    &&& forall|x: int, y: int|
        in_window(w, rx, ry, radius, x, y) && unexplored_match(w, x, y) ==> key_le(
            scan_key(rx, ry, c.0 as int, c.1 as int),
            #[trigger] scan_key(rx, ry, x, y),
        )
}

/// No cell the scan visits is undiscovered and traversable.
pub open spec fn no_unexplored_within(w: World, rx: int, ry: int, radius: int) -> bool {
    forall|x: int, y: int|
        #[trigger] in_window(w, rx, ry, radius, x, y) ==> !unexplored_match(w, x, y)
}

/// `c` is the first visited cell holding a scientific-interest deposit.
pub open spec fn is_first_sci(w: World, rx: int, ry: int, radius: int, c: (usize, usize)) -> bool {
    &&& in_window(w, rx, ry, radius, c.0 as int, c.1 as int)
    &&& sci_match(w, c.0 as int, c.1 as int)
    &&& forall|x: int, y: int|
        in_window(w, rx, ry, radius, x, y) && sci_match(w, x, y) ==> key_le(
            scan_key(rx, ry, c.0 as int, c.1 as int),
            #[trigger] scan_key(rx, ry, x, y),
        )
}

/// No cell the scan visits holds a scientific-interest deposit.
pub open spec fn no_sci_within(w: World, rx: int, ry: int, radius: int) -> bool {
    forall|x: int, y: int|
        #[trigger] in_window(w, rx, ry, radius, x, y) ==> !sci_match(w, x, y)
}

/// Cells are recovered from their scan keys: the key determines the cell.
pub proof fn lemma_scan_key_injective(rx: int, ry: int, a: (usize, usize), b: (usize, usize))
    requires
        scan_key(rx, ry, a.0 as int, a.1 as int) == scan_key(rx, ry, b.0 as int, b.1 as int),
    ensures
        a == b,
{
    assert(a.0 as int == b.0 as int);
    assert(a.1 as int == b.1 as int);
}

/// At most one cell is the first unexplored one.
pub proof fn lemma_first_unexplored_unique(
    w: World,
    rx: int,
    ry: int,
    radius: int,
    a: (usize, usize),
    b: (usize, usize),
)
    requires
        is_first_unexplored(w, rx, ry, radius, a),
        is_first_unexplored(w, rx, ry, radius, b),
    ensures
        a == b,
{
    let ka = scan_key(rx, ry, a.0 as int, a.1 as int);
    let kb = scan_key(rx, ry, b.0 as int, b.1 as int);
    assert(key_le(ka, kb));
    assert(key_le(kb, ka));
    lemma_key_le_total(ka, kb);
    lemma_scan_key_injective(rx, ry, a, b);
}

/// At most one cell is the first deposit of an allowed kind.
pub proof fn lemma_first_resource_match_unique(
    w: World,
    allowed: Seq<ResourceType>,
    rx: int,
    ry: int,
    radius: int,
    a: (usize, usize),
    b: (usize, usize),
)
    requires
        is_first_resource_match(w, allowed, rx, ry, radius, a),
        is_first_resource_match(w, allowed, rx, ry, radius, b),
    ensures
        a == b,
{
    let ka = scan_key(rx, ry, a.0 as int, a.1 as int);
    let kb = scan_key(rx, ry, b.0 as int, b.1 as int);
    assert(key_le(ka, kb));
    assert(key_le(kb, ka));
    lemma_key_le_total(ka, kb);
    lemma_scan_key_injective(rx, ry, a, b);
}

/// At most one cell is the first scientific-interest deposit.
pub proof fn lemma_first_sci_unique(
    w: World,
    rx: int,
    ry: int,
    radius: int,
    a: (usize, usize),
    b: (usize, usize),
)
    requires
        is_first_sci(w, rx, ry, radius, a),
        is_first_sci(w, rx, ry, radius, b),
    ensures
        a == b,
{
    let ka = scan_key(rx, ry, a.0 as int, a.1 as int);
    let kb = scan_key(rx, ry, b.0 as int, b.1 as int);
    assert(key_le(ka, kb));
    assert(key_le(kb, ka));
    lemma_key_le_total(ka, kb);
    lemma_scan_key_injective(rx, ry, a, b);
}

/// The cell the expanding scan finds first among the undiscovered
/// traversable ones, if any: the functional value of the search.
pub open spec fn first_unexplored(w: World, rx: int, ry: int, radius: int) -> Option<
    (usize, usize),
> {
    if exists|c: (usize, usize)| is_first_unexplored(w, rx, ry, radius, c) {
        Some(choose|c: (usize, usize)| is_first_unexplored(w, rx, ry, radius, c))
    } else {
        None
    }
}

/// The cell the expanding scan finds first among deposits of allowed kinds.
pub open spec fn first_resource_cell(
    w: World,
    allowed: Seq<ResourceType>,
    rx: int,
    ry: int,
    radius: int,
) -> Option<(usize, usize)> {
    if exists|c: (usize, usize)| is_first_resource_match(w, allowed, rx, ry, radius, c) {
        Some(choose|c: (usize, usize)| is_first_resource_match(w, allowed, rx, ry, radius, c))
    } else {
        None
    }
}

/// The first allowed deposit's cell together with its kind.
pub open spec fn first_resource(
    w: World,
    allowed: Seq<ResourceType>,
    rx: int,
    ry: int,
    radius: int,
) -> Option<((usize, usize), ResourceType)> {
    match first_resource_cell(w, allowed, rx, ry, radius) {
        Some(c) => Some((c, w.res_at(c.0 as int, c.1 as int)->Some_0.0)),
        None => None,
    }
}

/// The cell the expanding scan finds first among scientific-interest
/// deposits, if any.
pub open spec fn first_sci(w: World, rx: int, ry: int, radius: int) -> Option<(usize, usize)> {
    if exists|c: (usize, usize)| is_first_sci(w, rx, ry, radius, c) {
        Some(choose|c: (usize, usize)| is_first_sci(w, rx, ry, radius, c))
    } else {
        None
    }
}

impl World {
    /// Whether the cell holds a deposit whose kind occurs in `allowed`.
    pub fn resource_matches_at(&self, x: usize, y: usize, allowed: &Vec<ResourceType>) -> (b:
        bool)
        requires
            self.wf(),
            self.in_bounds(x as int, y as int),
        ensures
            b == resource_match(*self, allowed@, x as int, y as int),
    {
        let k = self.key_at(x, y);
        match self.resources.get(&k) {
            Some(p) => contains_kind(allowed, p.0),
            None => false,
        }
    }

    /// Whether the cell holds a scientific-interest deposit.
    pub fn scientific_interest_at(&self, x: usize, y: usize) -> (b: bool)
        requires
            self.wf(),
            self.in_bounds(x as int, y as int),
        ensures
            b == sci_match(*self, x as int, y as int),
    {
        let k = self.key_at(x, y);
        match self.resources.get(&k) {
            Some(p) => p.0 == ResourceType::ScientificInterest,
            None => false,
        }
    }
}

/// Whether `kind` occurs in `v`.
fn contains_kind(v: &Vec<ResourceType>, kind: ResourceType) -> (b: bool)
    ensures
        b == v@.contains(kind),
{
    let mut i: usize = 0;
    while i < v.len()
        invariant
            i <= v@.len(),
            forall|j: int| 0 <= j < i ==> v@[j] != kind,
        decreases v@.len() - i,
    {
        if v[i] == kind {
            return true;
        }
        i += 1;
    }
    false
}

impl SearchUtils {
    /// Expands the search radius from 1 to `search_radius`; each pass scans
    /// the full square window of that radius (not just its ring) clipped to
    /// the world bounds, in dx-ascending then dy-ascending order, and the
    /// first cell the predicate accepts is returned. The contract pins the
    /// tie-break: every cell visited before the returned one was rejected.
    pub fn radius_search<F: Fn(usize, usize, &World) -> bool>(
        robot_x: usize,
        robot_y: usize,
        search_radius: i32,
        map: &World,
        predicate: F,
    ) -> (r: Option<(usize, usize)>)
        requires
            map.wf(),
            robot_x <= i32::MAX,
            robot_y <= i32::MAX,
            forall|x: usize, y: usize|
                map.in_bounds(x as int, y as int) ==> #[trigger] predicate.requires((x, y, map)),
        ensures
            match r {
                Some(c) => {
                    &&& in_window(
                        *map,
                        robot_x as int,
                        robot_y as int,
                        search_radius as int,
                        c.0 as int,
                        c.1 as int,
                    )
                    &&& predicate.ensures((c.0, c.1, map), true)
                    &&& forall|x: usize, y: usize|
                        in_window(
                            *map,
                            robot_x as int,
                            robot_y as int,
                            search_radius as int,
                            x as int,
                            y as int,
                        ) && key_lt(
                            scan_key(robot_x as int, robot_y as int, x as int, y as int),
                            scan_key(robot_x as int, robot_y as int, c.0 as int, c.1 as int),
                        ) ==> #[trigger] predicate.ensures((x, y, map), false)
                },
                None => forall|x: usize, y: usize|
                    in_window(
                        *map,
                        robot_x as int,
                        robot_y as int,
                        search_radius as int,
                        x as int,
                        y as int,
                    ) ==> #[trigger] predicate.ensures((x, y, map), false),
            },
    {
        let rx = robot_x as i64;
        let ry = robot_y as i64;
        let max_r = search_radius as i64;
        let ghost rxi = robot_x as int;
        let ghost ryi = robot_y as int;
        let mut radius: i64 = 1;
        while radius <= max_r
            invariant
                map.wf(),
                robot_x <= i32::MAX,
                robot_y <= i32::MAX,
                rx == robot_x,
                ry == robot_y,
                rxi == robot_x,
                ryi == robot_y,
                max_r == search_radius,
                1 <= radius,
                forall|x: usize, y: usize|
                    map.in_bounds(x as int, y as int) ==> #[trigger] predicate.requires(
                        (x, y, map),
                    ),
                forall|x: usize, y: usize|
                    in_window(*map, rxi, ryi, radius - 1, x as int, y as int)
                        ==> #[trigger] predicate.ensures((x, y, map), false),
            decreases max_r + 1 - radius,
        {
            let mut dx: i64 = -radius;
            while dx <= radius
                invariant
                    map.wf(),
                    robot_x <= i32::MAX,
                    robot_y <= i32::MAX,
                    rx == robot_x,
                    ry == robot_y,
                    rxi == robot_x,
                    ryi == robot_y,
                    max_r == search_radius,
                    1 <= radius <= max_r,
                    -radius <= dx <= radius + 1,
                    forall|x: usize, y: usize|
                        map.in_bounds(x as int, y as int) ==> #[trigger] predicate.requires(
                            (x, y, map),
                        ),
                    forall|x: usize, y: usize|
                        in_window(*map, rxi, ryi, radius - 1, x as int, y as int)
                            ==> #[trigger] predicate.ensures((x, y, map), false),
                    forall|x: usize, y: usize|
                        in_window(*map, rxi, ryi, radius as int, x as int, y as int) && x - rxi
                            < dx ==> #[trigger] predicate.ensures((x, y, map), false),
                decreases radius + 1 - dx,
            {
                let mut dy: i64 = -radius;
                while dy <= radius
                    invariant
                        map.wf(),
                        robot_x <= i32::MAX,
                        robot_y <= i32::MAX,
                        rx == robot_x,
                        ry == robot_y,
                        rxi == robot_x,
                        ryi == robot_y,
                        max_r == search_radius,
                        1 <= radius <= max_r,
                        -radius <= dx <= radius,
                        -radius <= dy <= radius + 1,
                        forall|x: usize, y: usize|
                            map.in_bounds(x as int, y as int) ==> #[trigger] predicate.requires(
                                (x, y, map),
                            ),
                        forall|x: usize, y: usize|
                            in_window(*map, rxi, ryi, radius - 1, x as int, y as int)
                                ==> #[trigger] predicate.ensures((x, y, map), false),
                        forall|x: usize, y: usize|
                            in_window(*map, rxi, ryi, radius as int, x as int, y as int) && x - rxi
                                < dx ==> #[trigger] predicate.ensures((x, y, map), false),
                        forall|x: usize, y: usize|
                            in_window(*map, rxi, ryi, radius as int, x as int, y as int) && x - rxi
                                == dx && y - ryi < dy ==> #[trigger] predicate.ensures(
                                (x, y, map),
                                false,
                            ),
                    decreases radius + 1 - dy,
                {
                    let x = rx + dx;
                    let y = ry + dy;
                    if x >= 0 && y >= 0 && (x as usize) < map.width && (y as usize) < map.height {
                        let xu = x as usize;
                        let yu = y as usize;
                        if predicate(xu, yu, map) {
                            proof {
                                let kc = scan_key(rxi, ryi, xu as int, yu as int);
                                assert(xu as int - rxi == dx && yu as int - ryi == dy);
                                assert(cheb(xu as int, yu as int, rxi, ryi) <= radius);
                                assert forall|px: usize, py: usize|
                                    in_window(
                                        *map,
                                        rxi,
                                        ryi,
                                        search_radius as int,
                                        px as int,
                                        py as int,
                                    ) && key_lt(
                                        scan_key(rxi, ryi, px as int, py as int),
                                        kc,
                                    ) implies predicate.ensures((px, py, map), false) by {
                                    let kp = scan_key(rxi, ryi, px as int, py as int);
                                    if kp.0 < kc.0 {
                                        assert(cheb(px as int, py as int, rxi, ryi) <= radius - 1);
                                        assert(in_window(
                                            *map,
                                            rxi,
                                            ryi,
                                            radius - 1,
                                            px as int,
                                            py as int,
                                        ));
                                    } else {
                                        assert(kp.0 == kc.0);
                                        assert(cheb(px as int, py as int, rxi, ryi) <= radius);
                                        assert(in_window(
                                            *map,
                                            rxi,
                                            ryi,
                                            radius as int,
                                            px as int,
                                            py as int,
                                        ));
                                    }
                                }
                            }
                            return Some((xu, yu));
                        }
                    }
                    dy += 1;
                }
                dx += 1;
            }
            radius += 1;
        }
        None
    }

    /// The first visited cell within `search_radius` holding a deposit of an
    /// allowed kind, with that deposit's kind.
    pub fn find_nearest_resource(
        robot_x: usize,
        robot_y: usize,
        search_radius: i32,
        map: &World,
        allowed_types: &Vec<ResourceType>,
    ) -> (r: Option<((usize, usize), ResourceType)>)
        requires
            map.wf(),
            robot_x <= i32::MAX,
            robot_y <= i32::MAX,
        ensures
            r == first_resource(
                *map,
                allowed_types@,
                robot_x as int,
                robot_y as int,
                search_radius as int,
            ),
    {
        let ghost rxi = robot_x as int;
        let ghost ryi = robot_y as int;
        let ghost radi = search_radius as int;
        let pred = (|x: usize, y: usize, m: &World| -> (b: bool)
            requires
                m.wf(),
                m.in_bounds(x as int, y as int),
            ensures
                b == resource_match(*m, allowed_types@, x as int, y as int),
            { m.resource_matches_at(x, y, allowed_types) });
        let found = Self::radius_search(robot_x, robot_y, search_radius, map, pred);
        match found {
            Some(c) => {
                let ghost kc = scan_key(rxi, ryi, c.0 as int, c.1 as int);
                proof {
                    assert(resource_match(*map, allowed_types@, c.0 as int, c.1 as int));
                    assert forall|x: int, y: int|
                        in_window(*map, rxi, ryi, radi, x, y) && resource_match(
                            *map,
                            allowed_types@,
                            x,
                            y,
                        ) implies key_le(kc, #[trigger] scan_key(rxi, ryi, x, y)) by {
                        let xu = x as usize;
                        let yu = y as usize;
                        assert(xu as int == x && yu as int == y);
                        let kx = scan_key(rxi, ryi, x, y);
                        lemma_key_le_total(kc, kx);
                        if !key_le(kc, kx) {
                            assert(key_lt(kx, kc));
                            assert(pred.ensures((xu, yu, map), false));
                            assert(false);
                        }
                    }
                    assert(is_first_resource_match(*map, allowed_types@, rxi, ryi, radi, c));
                    let w = choose|cc: (usize, usize)|
                        is_first_resource_match(*map, allowed_types@, rxi, ryi, radi, cc);
                    lemma_first_resource_match_unique(
                        *map,
                        allowed_types@,
                        rxi,
                        ryi,
                        radi,
                        c,
                        w,
                    );
                    assert(first_resource_cell(*map, allowed_types@, rxi, ryi, radi) == Some(c));
                }
                let k = map.key_at(c.0, c.1);
                match map.resources.get(&k) {
                    Some(p) => Some((c, p.0)),
                    None => {
                        proof {
                            assert(false);
                        }
                        None
                    },
                }
            },
            None => {
                proof {
                    assert forall|x: int, y: int|
                        in_window(*map, rxi, ryi, radi, x, y) implies !resource_match(
                        *map,
                        allowed_types@,
                        x,
                        y,
                    ) by {
                        let xu = x as usize;
                        let yu = y as usize;
                        assert(xu as int == x && yu as int == y);
                        assert(pred.ensures((xu, yu, map), false));
                    }
                    assert(no_resource_match_within(*map, allowed_types@, rxi, ryi, radi));
                    if exists|cc: (usize, usize)|
                        is_first_resource_match(*map, allowed_types@, rxi, ryi, radi, cc) {
                        let cc = choose|cc: (usize, usize)|
                            is_first_resource_match(*map, allowed_types@, rxi, ryi, radi, cc);
                        assert(in_window(*map, rxi, ryi, radi, cc.0 as int, cc.1 as int));
                        assert(false);
                    }
                }
                None
            },
        }
    }

    /// The first visited cell within `search_radius` that is undiscovered
    /// and traversable.
    pub fn find_nearest_unexplored(
        robot_x: usize,
        robot_y: usize,
        search_radius: i32,
        map: &World,
    ) -> (r: Option<(usize, usize)>)
        requires
            map.wf(),
            robot_x <= i32::MAX,
            robot_y <= i32::MAX,
        ensures
            r == first_unexplored(*map, robot_x as int, robot_y as int, search_radius as int),
    {
        let ghost rxi = robot_x as int;
        let ghost ryi = robot_y as int;
        let ghost radi = search_radius as int;
        let pred = (|x: usize, y: usize, m: &World| -> (b: bool)
            requires
                m.wf(),
                m.in_bounds(x as int, y as int),
            ensures
                b == unexplored_match(*m, x as int, y as int),
            {
                let d = m.discovered[y][x];
                let t = m.terrain[y][x];
                !d && t == 0
            });
        let found = Self::radius_search(robot_x, robot_y, search_radius, map, pred);
        proof {
            match found {
                Some(c) => {
                    let kc = scan_key(rxi, ryi, c.0 as int, c.1 as int);
                    assert(unexplored_match(*map, c.0 as int, c.1 as int));
                    assert forall|x: int, y: int|
                        in_window(*map, rxi, ryi, radi, x, y) && unexplored_match(
                            *map,
                            x,
                            y,
                        ) implies key_le(kc, #[trigger] scan_key(rxi, ryi, x, y)) by {
                        let xu = x as usize;
                        let yu = y as usize;
                        assert(xu as int == x && yu as int == y);
                        let kx = scan_key(rxi, ryi, x, y);
                        lemma_key_le_total(kc, kx);
                        if !key_le(kc, kx) {
                            assert(key_lt(kx, kc));
                            assert(pred.ensures((xu, yu, map), false));
                            assert(false);
                        }
                    }
                    assert(is_first_unexplored(*map, rxi, ryi, radi, c));
                    let w = choose|cc: (usize, usize)| is_first_unexplored(*map, rxi, ryi, radi, cc);
                    lemma_first_unexplored_unique(*map, rxi, ryi, radi, c, w);
                    assert(first_unexplored(*map, rxi, ryi, radi) == Some(c));
                },
                None => {
                    assert forall|x: int, y: int|
                        in_window(*map, rxi, ryi, radi, x, y) implies !unexplored_match(
                        *map,
                        x,
                        y,
                    ) by {
                        let xu = x as usize;
                        let yu = y as usize;
                        assert(xu as int == x && yu as int == y);
                        assert(pred.ensures((xu, yu, map), false));
                    }
                    assert(no_unexplored_within(*map, rxi, ryi, radi));
                    if exists|cc: (usize, usize)| is_first_unexplored(*map, rxi, ryi, radi, cc) {
                        let cc = choose|cc: (usize, usize)|
                            is_first_unexplored(*map, rxi, ryi, radi, cc);
                        assert(in_window(*map, rxi, ryi, radi, cc.0 as int, cc.1 as int));
                        assert(false);
                    }
                },
            }
        }
        found
    }

    /// The first visited cell within `search_radius` holding a
    /// scientific-interest deposit.
    pub fn find_nearest_scientific_interest(
        robot_x: usize,
        robot_y: usize,
        search_radius: i32,
        map: &World,
    ) -> (r: Option<(usize, usize)>)
        requires
            map.wf(),
            robot_x <= i32::MAX,
            robot_y <= i32::MAX,
        ensures
            r == first_sci(*map, robot_x as int, robot_y as int, search_radius as int),
    {
        let ghost rxi = robot_x as int;
        let ghost ryi = robot_y as int;
        let ghost radi = search_radius as int;
        let pred = (|x: usize, y: usize, m: &World| -> (b: bool)
            requires
                m.wf(),
                m.in_bounds(x as int, y as int),
            ensures
                b == sci_match(*m, x as int, y as int),
            { m.scientific_interest_at(x, y) });
        let found = Self::radius_search(robot_x, robot_y, search_radius, map, pred);
        proof {
            match found {
                Some(c) => {
                    let kc = scan_key(rxi, ryi, c.0 as int, c.1 as int);
                    assert(sci_match(*map, c.0 as int, c.1 as int));
                    assert forall|x: int, y: int|
                        in_window(*map, rxi, ryi, radi, x, y) && sci_match(*map, x, y) implies
                        key_le(kc, #[trigger] scan_key(rxi, ryi, x, y)) by {
                        let xu = x as usize;
                        let yu = y as usize;
                        assert(xu as int == x && yu as int == y);
                        let kx = scan_key(rxi, ryi, x, y);
                        lemma_key_le_total(kc, kx);
                        if !key_le(kc, kx) {
                            assert(key_lt(kx, kc));
                            assert(pred.ensures((xu, yu, map), false));
                            assert(false);
                        }
                    }
                    assert(is_first_sci(*map, rxi, ryi, radi, c));
                    let w = choose|cc: (usize, usize)| is_first_sci(*map, rxi, ryi, radi, cc);
                    lemma_first_sci_unique(*map, rxi, ryi, radi, c, w);
                    assert(first_sci(*map, rxi, ryi, radi) == Some(c));
                },
                None => {
                    assert forall|x: int, y: int|
                        in_window(*map, rxi, ryi, radi, x, y) implies !sci_match(*map, x, y) by {
                        let xu = x as usize;
                        let yu = y as usize;
                        assert(xu as int == x && yu as int == y);
                        assert(pred.ensures((xu, yu, map), false));
                    }
                    assert(no_sci_within(*map, rxi, ryi, radi));
                    if exists|cc: (usize, usize)| is_first_sci(*map, rxi, ryi, radi, cc) {
                        let cc = choose|cc: (usize, usize)| is_first_sci(*map, rxi, ryi, radi, cc);
                        assert(in_window(*map, rxi, ryi, radi, cc.0 as int, cc.1 as int));
                        assert(false);
                    }
                },
            }
        }
        found
    }
}

} // verus!
