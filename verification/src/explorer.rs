use vstd::prelude::*;
use crate::behavior::RobotBehavior;
use crate::entities::{ResourceType, Robot, Station, World};
use crate::search::{first_unexplored, SearchUtils};
use crate::types::{ExploreTask, Task, TaskType};

verus! {

/// Strategy of the explorer class: map out undiscovered ground.
pub struct ExplorerBehavior;

/// One round of SplitMix64's finalizer: a fixed 64-bit mixing step.
pub open spec fn mix64_spec(z: u64) -> u64 {
    let z1 = (z ^ (z >> 30)).wrapping_mul(0xBF58476D1CE4E5B9u64);
    let z2 = (z1 ^ (z1 >> 27)).wrapping_mul(0x94D049BB133111EBu64);
    z2 ^ (z2 >> 31)
}

/// The deterministic 64-bit hash of (id, x, y) behind the explorer's
/// pseudo-random fallback target: SplitMix64 finalizer rounds chained over
/// the three values. A fixed, documented mixing hash keeps the fallback
/// reproducible across runs and machines; it is deliberately not
/// cryptographic.
pub open spec fn exploration_hash_spec(id: u64, x: u64, y: u64) -> u64 {
    mix64_spec(mix64_spec(mix64_spec(id).wrapping_add(x)).wrapping_add(y))
}

fn mix64(z: u64) -> (r: u64)
    ensures
        r == mix64_spec(z),
{
    let z1 = (z ^ (z >> 30)).wrapping_mul(0xBF58476D1CE4E5B9u64);
    let z2 = (z1 ^ (z1 >> 27)).wrapping_mul(0x94D049BB133111EBu64);
    z2 ^ (z2 >> 31)
}

fn exploration_hash(id: u64, x: u64, y: u64) -> (r: u64)
    ensures
        r == exploration_hash_spec(id, x, y),
{
    mix64(mix64(mix64(id).wrapping_add(x)).wrapping_add(y))
}

/// The explorer's fallback: a pseudo-random cell derived from (id, x, y),
/// clamped into the interior of the map, taken only if its terrain is plain.
pub open spec fn explorer_fallback_target(robot: Robot, map: World) -> Option<(usize, usize)> {
    let seed = exploration_hash_spec(robot.id as u64, robot.x as u64, robot.y as u64);
    let tx0 = (seed % (map.width as u64)) as usize;
    let tx1: usize = if tx0 < 1 { 1 } else { tx0 };
    let tx: usize = if tx1 > map.width - 2 { (map.width - 2) as usize } else { tx1 };
    let ty0 = ((seed >> 16) % (map.height as u64)) as usize;
    let ty1: usize = if ty0 < 1 { 1 } else { ty0 };
    let ty: usize = if ty1 > map.height - 2 { (map.height - 2) as usize } else { ty1 };
    if map.terrain_at(tx as int, ty as int) == 0 {
        Some((tx, ty))
    } else {
        None
    }
}

/// The explorer's whole decision: return to the station when low on energy
/// or carrying; else head for the nearest unexplored traversable cell
/// within radius 5; else fall back to the hashed target; else nothing.
pub open spec fn explorer_decide_spec(robot: Robot, map: World, station: Station) -> Option<
    Task,
> {
    if robot.energy < 20 || robot.carrying is Some {
        Some(
            Task {
                task_type: TaskType::ReturnToStation,
                target_position: Some((station.x, station.y)),
                priority: 9,
            },
        )
    } else {
        match first_unexplored(map, robot.x as int, robot.y as int, 5) {
            Some(area) => Some(
                Task {
                    task_type: TaskType::Explore(ExploreTask { target_area: area, radius: 3 }),
                    target_position: Some(area),
                    priority: 7,
                },
            ),
            None => match explorer_fallback_target(robot, map) {
                Some(t) => Some(
                    Task {
                        task_type: TaskType::Explore(ExploreTask { target_area: t, radius: 2 }),
                        target_position: Some(t),
                        priority: 5,
                    },
                ),
                None => None,
            },
        }
    }
}

impl RobotBehavior for ExplorerBehavior {
    open spec fn decide_req(&self, robot: Robot, map: World) -> bool {
        &&& map.width >= 2
        &&& map.height >= 2
        &&& robot.x <= i32::MAX
        &&& robot.y <= i32::MAX
    }

    open spec fn decide_spec(&self, robot: Robot, map: World, station: Station) -> Option<Task> {
        explorer_decide_spec(robot, map, station)
    }

    open spec fn preferred_spec(&self) -> Seq<ResourceType> {
        Seq::empty()
    }

    open spec fn rate_spec(&self) -> u32 {
        2
    }

    open spec fn can_perform_spec(&self, task: Task) -> bool {
        match task.task_type {
            TaskType::Explore(_) => true,
            TaskType::ReturnToStation => true,
            _ => false,
        }
    }

    fn decide_next_action(&self, robot: &Robot, map: &World, station: &Station) -> (r: Option<
        Task,
    >) {
        if robot.energy < 20 || robot.carrying.is_some() {
            return Some(
                Task {
                    task_type: TaskType::ReturnToStation,
                    target_position: Some((station.x, station.y)),
                    priority: 9,
                },
            );
        }
        if let Some(unexplored_area) = self.find_unexplored_area(robot, map) {
            return Some(
                Task {
                    task_type: TaskType::Explore(
                        ExploreTask { target_area: unexplored_area, radius: 3 },
                    ),
                    target_position: Some(unexplored_area),
                    priority: 7,
                },
            );
        }
        if let Some(random_target) = self.get_random_exploration_target(robot, map) {
            return Some(
                Task {
                    task_type: TaskType::Explore(
                        ExploreTask { target_area: random_target, radius: 2 },
                    ),
                    target_position: Some(random_target),
                    priority: 5,
                },
            );
        }
        None
    }

    fn get_preferred_resources(&self) -> (r: Vec<ResourceType>) {
        Vec::new()
    }

    fn get_energy_consumption_rate(&self) -> (r: u32) {
        2
    }

    fn can_perform_task(&self, task: &Task) -> (b: bool) {
        matches!(task.task_type, TaskType::Explore(_) | TaskType::ReturnToStation)
    }
}

impl ExplorerBehavior {
    /// The nearest unexplored traversable cell within radius 5.
    pub fn find_unexplored_area(&self, robot: &Robot, map: &World) -> (r: Option<(usize, usize)>)
        requires
            map.wf(),
            robot.x <= i32::MAX,
            robot.y <= i32::MAX,
        ensures
            r == first_unexplored(*map, robot.x as int, robot.y as int, 5),
    {
        SearchUtils::find_nearest_unexplored(robot.x, robot.y, 5, map)
    }

    /// The hashed fallback target, clamped into the map's interior; `Some`
    /// only when that cell's terrain is plain.
    pub fn get_random_exploration_target(&self, robot: &Robot, map: &World) -> (r: Option<
        (usize, usize),
    >)
        requires
            map.wf(),
            map.width >= 2,
            map.height >= 2,
        ensures
            r == explorer_fallback_target(*robot, *map),
    {
        let seed = exploration_hash(robot.id as u64, robot.x as u64, robot.y as u64);
        let tx0 = (seed % (map.width as u64)) as usize;
        let tx1: usize = if tx0 < 1 {
            1
        } else {
            tx0
        };
        let tx: usize = if tx1 > map.width - 2 {
            map.width - 2
        } else {
            tx1
        };
        let ty0 = ((seed >> 16) % (map.height as u64)) as usize;
        let ty1: usize = if ty0 < 1 {
            1
        } else {
            ty0
        };
        let ty: usize = if ty1 > map.height - 2 {
            map.height - 2
        } else {
            ty1
        };
        if map.terrain[ty][tx] == 0 {
            Some((tx, ty))
        } else {
            None
        }
    }
}

/// An explorer low on energy always decides to return to the station, with
/// the station as target and priority 9, whatever else the world holds.
pub proof fn lemma_explorer_low_energy_returns_to_station(
    robot: Robot,
    map: World,
    station: Station,
)
    requires
        robot.energy < 20,
    ensures
        explorer_decide_spec(robot, map, station) == Some(
            Task {
                task_type: TaskType::ReturnToStation,
                target_position: Some((station.x, station.y)),
                priority: 9,
            },
        ),
{
}

/// An explorer carrying anything always decides to return to the station.
pub proof fn lemma_explorer_carrying_returns_to_station(
    robot: Robot,
    map: World,
    station: Station,
)
    requires
        robot.carrying is Some,
    ensures
        explorer_decide_spec(robot, map, station) == Some(
            Task {
                task_type: TaskType::ReturnToStation,
                target_position: Some((station.x, station.y)),
                priority: 9,
            },
        ),
{
}

} // verus!
