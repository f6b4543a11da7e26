use vstd::prelude::*;
use crate::behavior::RobotBehavior;
use crate::entities::{ResourceType, Robot, Station, World};
use crate::search::{first_sci, SearchUtils};
use crate::types::{AnalysisType, AnalyzeTask, ExploreTask, Task, TaskType};

verus! {

/// Strategy of the scientist class: analyze scientific-interest deposits.
pub struct ScientistBehavior;

/// Number of cells holding a deposit in the column `x`, rows `py + dy` for
/// `dy` in `[dy_lo, dy_hi)`, counting in-bounds cells only.
pub open spec fn col_resource_count(w: World, x: int, py: int, dy_lo: int, dy_hi: int) -> int
    decreases dy_hi - dy_lo,
{
    if dy_hi <= dy_lo {
        0
    } else {
        col_resource_count(w, x, py, dy_lo, dy_hi - 1) + (
        if w.in_bounds(x, py + (dy_hi - 1)) && w.res_at(x, py + (dy_hi - 1)) is Some {
            1int
        } else {
            0int
        })
    }
}

/// Deposits counted by one pass of radius `r` over the columns `px + dx`
/// for `dx` in `[dx_lo, dx_hi)`.
pub open spec fn pass_resource_count(
    w: World,
    px: int,
    py: int,
    r: int,
    dx_lo: int,
    dx_hi: int,
) -> int
    decreases dx_hi - dx_lo,
{
    if dx_hi <= dx_lo {
        0
    } else {
        pass_resource_count(w, px, py, r, dx_lo, dx_hi - 1) + col_resource_count(
            w,
            px + (dx_hi - 1),
            py,
            -r,
            r + 1,
        )
    }
}

/// The local deposit density around (px, py) as the scientist's scan sees
/// it: the radius-1 and radius-2 passes of the expanding window scan added
/// together, so cells of the inner window are counted by both passes that
/// visit them.
pub open spec fn nearby_resource_count(w: World, px: int, py: int) -> int {
    pass_resource_count(w, px, py, 1, -1, 2) + pass_resource_count(w, px, py, 2, -2, 3)
}

proof fn lemma_col_count_bound(w: World, x: int, py: int, dy_lo: int, dy_hi: int)
    ensures
        0 <= col_resource_count(w, x, py, dy_lo, dy_hi),
        dy_hi >= dy_lo ==> col_resource_count(w, x, py, dy_lo, dy_hi) <= dy_hi - dy_lo,
    decreases dy_hi - dy_lo,
{
    if dy_hi > dy_lo {
        lemma_col_count_bound(w, x, py, dy_lo, dy_hi - 1);
    }
}

proof fn lemma_pass_count_bound(w: World, px: int, py: int, r: int, dx_lo: int, dx_hi: int)
    requires
        r >= 0,
    ensures
        0 <= pass_resource_count(w, px, py, r, dx_lo, dx_hi),
        dx_hi >= dx_lo ==> pass_resource_count(w, px, py, r, dx_lo, dx_hi) <= (dx_hi - dx_lo) * (
        2 * r + 1),
        r <= 2 && dx_lo <= dx_hi <= dx_lo + 5 ==> pass_resource_count(w, px, py, r, dx_lo, dx_hi)
            <= 25,
    decreases dx_hi - dx_lo,
{
    if dx_hi > dx_lo {
        lemma_pass_count_bound(w, px, py, r, dx_lo, dx_hi - 1);
        lemma_col_count_bound(w, px + (dx_hi - 1), py, -r, r + 1);
        assert((dx_hi - 1 - dx_lo) * (2 * r + 1) + (2 * r + 1) == (dx_hi - dx_lo) * (2 * r + 1))
            by (nonlinear_arith);
    }
    if r <= 2 && dx_lo <= dx_hi <= dx_lo + 5 {
        assert((dx_hi - dx_lo) * (2 * r + 1) <= 25) by (nonlinear_arith)
            requires
                0 <= r <= 2,
                dx_lo <= dx_hi <= dx_lo + 5,
        ;
    }
}

/// The scientist's fallback: the fixed offset pattern (+3, +2) wrapped by
/// the map dimensions, taken only if that cell's terrain is plain.
pub open spec fn scientist_fallback_target(robot: Robot, map: World) -> Option<(usize, usize)> {
    let tx = ((robot.x + 3) % (map.width as int)) as usize;
    let ty = ((robot.y + 2) % (map.height as int)) as usize;
    if map.terrain_at(tx as int, ty as int) == 0 {
        Some((tx, ty))
    } else {
        None
    }
}

/// The scientist's whole decision: return to the station when carrying or
/// low on energy; else analyze the nearest scientific interest within
/// radius 6 (the analysis kind is the single fixed category); else fall
/// back to the offset pattern; else nothing.
pub open spec fn scientist_decide_spec(robot: Robot, map: World, station: Station) -> Option<
    Task,
> {
    if robot.carrying is Some || robot.energy < 25 {
        Some(
            Task {
                task_type: TaskType::ReturnToStation,
                target_position: Some((station.x, station.y)),
                priority: 9,
            },
        )
    } else {
        match first_sci(map, robot.x as int, robot.y as int, 6) {
            Some(pos) => Some(
                Task {
                    task_type: TaskType::Analyze(
                        AnalyzeTask { target_position: pos, analysis_type: AnalysisType::Chemical },
                    ),
                    target_position: Some(pos),
                    priority: 8,
                },
            ),
            None => match scientist_fallback_target(robot, map) {
                Some(t) => Some(
                    Task {
                        task_type: TaskType::Explore(ExploreTask { target_area: t, radius: 2 }),
                        target_position: Some(t),
                        priority: 6,
                    },
                ),
                None => None,
            },
        }
    }
}

impl RobotBehavior for ScientistBehavior {
    open spec fn decide_req(&self, robot: Robot, map: World) -> bool {
        &&& map.width >= 1
        &&& map.height >= 1
        &&& robot.x <= i32::MAX
        &&& robot.y <= i32::MAX
    }

    open spec fn decide_spec(&self, robot: Robot, map: World, station: Station) -> Option<Task> {
        scientist_decide_spec(robot, map, station)
    }

    open spec fn preferred_spec(&self) -> Seq<ResourceType> {
        seq![ResourceType::ScientificInterest]
    }

    open spec fn rate_spec(&self) -> u32 {
        4
    }

    open spec fn can_perform_spec(&self, task: Task) -> bool {
        match task.task_type {
            TaskType::Analyze(_) => true,
            TaskType::Explore(_) => true,
            TaskType::ReturnToStation => true,
            _ => false,
        }
    }

    fn decide_next_action(&self, robot: &Robot, map: &World, station: &Station) -> (r: Option<
        Task,
    >) {
        if robot.carrying.is_some() || robot.energy < 25 {
            return Some(
                Task {
                    task_type: TaskType::ReturnToStation,
                    target_position: Some((station.x, station.y)),
                    priority: 9,
                },
            );
        }
        if let Some(poi_pos) = self.find_scientific_interest(robot, map) {
            let analysis_type = self.determine_analysis_type(poi_pos, map);
            return Some(
                Task {
                    task_type: TaskType::Analyze(
                        AnalyzeTask { target_position: poi_pos, analysis_type },
                    ),
                    target_position: Some(poi_pos),
                    priority: 8,
                },
            );
        }
        if let Some(exploration_target) = self.get_scientific_exploration_target(robot, map) {
            return Some(
                Task {
                    task_type: TaskType::Explore(
                        ExploreTask { target_area: exploration_target, radius: 2 },
                    ),
                    target_position: Some(exploration_target),
                    priority: 6,
                },
            );
        }
        None
    }

    fn get_preferred_resources(&self) -> (r: Vec<ResourceType>) {
        let mut v: Vec<ResourceType> = Vec::new();
        v.push(ResourceType::ScientificInterest);
        proof {
            assert(v@ =~= seq![ResourceType::ScientificInterest]);
        }
        v
    }

    fn get_energy_consumption_rate(&self) -> (r: u32) {
        4
    }

    fn can_perform_task(&self, task: &Task) -> (b: bool) {
        matches!(
            task.task_type,
            TaskType::Analyze(_) | TaskType::Explore(_) | TaskType::ReturnToStation
        )
    }
}

impl ScientistBehavior {
    /// The nearest scientific-interest deposit within radius 6.
    pub fn find_scientific_interest(&self, robot: &Robot, map: &World) -> (r: Option<
        (usize, usize),
    >)
        requires
            map.wf(),
            robot.x <= i32::MAX,
            robot.y <= i32::MAX,
        ensures
            r == first_sci(*map, robot.x as int, robot.y as int, 6),
    {
        SearchUtils::find_nearest_scientific_interest(robot.x, robot.y, 6, map)
    }

    /// The analysis category for a deposit: derived from the terrain and the
    /// local deposit density, which currently always resolves to the single
    /// fixed category.
    pub fn determine_analysis_type(&self, pos: (usize, usize), map: &World) -> (r: AnalysisType)
        requires
            map.wf(),
            map.in_bounds(pos.0 as int, pos.1 as int),
            pos.0 + 2 <= u32::MAX,
            pos.1 + 2 <= u32::MAX,
        ensures
            r == AnalysisType::Chemical,
    {
        let terrain_value = map.terrain[pos.1][pos.0];
        let nearby_resources = self.count_nearby_resources(pos, map);
        if terrain_value == 0 && nearby_resources > 2 {
            AnalysisType::Chemical
        } else {
            AnalysisType::Chemical
        }
    }

    /// Counts the deposits around `pos` exactly as the expanding radius-2
    /// window scan visits them: each pass rescans its full window, so inner
    /// cells count once per pass.
    pub fn count_nearby_resources(&self, pos: (usize, usize), map: &World) -> (count: usize)
        requires
            map.wf(),
            pos.0 + 2 <= u32::MAX,
            pos.1 + 2 <= u32::MAX,
        ensures
            count == nearby_resource_count(*map, pos.0 as int, pos.1 as int),
    {
        let px = pos.0 as i64;
        let py = pos.1 as i64;
        let ghost pxi = pos.0 as int;
        let ghost pyi = pos.1 as int;
        let mut count: usize = 0;
        let mut radius: i64 = 1;
        while radius <= 2
            invariant
                map.wf(),
                pos.0 + 2 <= u32::MAX,
                pos.1 + 2 <= u32::MAX,
                px == pos.0,
                py == pos.1,
                pxi == pos.0,
                pyi == pos.1,
                1 <= radius <= 3,
                count == pass_resource_count(*map, pxi, pyi, 1, -1, 2) + (
                if radius == 3 {
                    pass_resource_count(*map, pxi, pyi, 2, -2, 3)
                } else {
                    0int
                }) - (
                if radius == 1 {
                    pass_resource_count(*map, pxi, pyi, 1, -1, 2)
                } else {
                    0int
                }),
            decreases 3 - radius,
        {
            let ghost count_before = count as int;
            proof {
                lemma_pass_count_bound(*map, pxi, pyi, 1, -1, 2);
            }
            let mut dx: i64 = -radius;
            while dx <= radius
                invariant
                    map.wf(),
                    pos.0 + 2 <= u32::MAX,
                    pos.1 + 2 <= u32::MAX,
                    px == pos.0,
                    py == pos.1,
                    pxi == pos.0,
                    pyi == pos.1,
                    1 <= radius <= 2,
                    -radius <= dx <= radius + 1,
                    0 <= count_before <= 9,
                    count == count_before + pass_resource_count(
                        *map,
                        pxi,
                        pyi,
                        radius as int,
                        -(radius as int),
                        dx as int,
                    ),
                decreases radius + 1 - dx,
            {
                let mut dy: i64 = -radius;
                while dy <= radius
                    invariant
                        map.wf(),
                        pos.0 + 2 <= u32::MAX,
                        pos.1 + 2 <= u32::MAX,
                        px == pos.0,
                        py == pos.1,
                        pxi == pos.0,
                        pyi == pos.1,
                        1 <= radius <= 2,
                        -radius <= dx <= radius,
                        -radius <= dy <= radius + 1,
                        0 <= count_before <= 9,
                        count == count_before + pass_resource_count(
                            *map,
                            pxi,
                            pyi,
                            radius as int,
                            -(radius as int),
                            dx as int,
                        ) + col_resource_count(
                            *map,
                            pxi + dx as int,
                            pyi,
                            -(radius as int),
                            dy as int,
                        ),
                    decreases radius + 1 - dy,
                {
                    let x = px + dx;
                    let y = py + dy;
                    proof {
                        lemma_pass_count_bound(*map, pxi, pyi, 1, -1, 2);
                        lemma_pass_count_bound(*map, pxi, pyi, radius as int, -(radius as int), dx as int);
                        lemma_col_count_bound(*map, pxi + dx as int, pyi, -(radius as int), dy as int);
                    }
                    if x >= 0 && y >= 0 && (x as usize) < map.width && (y as usize) < map.height {
                        let xu = x as usize;
                        let yu = y as usize;
                        if map.has_resource_at(xu, yu) {
                            count += 1;
                        }
                    }
                    dy += 1;
                }
                dx += 1;
            }
            proof {
                assert(col_resource_count(
                    *map,
                    pxi + radius as int,
                    pyi,
                    -(radius as int),
                    radius as int + 1,
                ) >= 0) by {
                    lemma_col_count_bound(
                        *map,
                        pxi + radius as int,
                        pyi,
                        -(radius as int),
                        radius as int + 1,
                    );
                }
            }
            radius += 1;
        }
        count
    }

    /// The fixed offset fallback target.
    pub fn get_scientific_exploration_target(&self, robot: &Robot, map: &World) -> (r: Option<
        (usize, usize),
    >)
        requires
            map.wf(),
            map.width >= 1,
            map.height >= 1,
            robot.x <= i32::MAX,
            robot.y <= i32::MAX,
        ensures
            r == scientist_fallback_target(*robot, *map),
    {
        let pattern_x = (robot.x + 3) % map.width;
        let pattern_y = (robot.y + 2) % map.height;
        if map.terrain[pattern_y][pattern_x] == 0 {
            Some((pattern_x, pattern_y))
        } else {
            None
        }
    }
}

/// A scientist low on energy always decides to return to the station.
pub proof fn lemma_scientist_low_energy_returns_to_station(
    robot: Robot,
    map: World,
    station: Station,
)
    requires
        robot.energy < 25,
    ensures
        scientist_decide_spec(robot, map, station) == Some(
            Task {
                task_type: TaskType::ReturnToStation,
                target_position: Some((station.x, station.y)),
                priority: 9,
            },
        ),
{
}

/// A scientist that is carrying always decides to return to the station.
pub proof fn lemma_scientist_carrying_returns_to_station(
    robot: Robot,
    map: World,
    station: Station,
)
    requires
        robot.carrying is Some,
    ensures
        scientist_decide_spec(robot, map, station) == Some(
            Task {
                task_type: TaskType::ReturnToStation,
                target_position: Some((station.x, station.y)),
                priority: 9,
            },
        ),
{
}

} // verus!
