use vstd::prelude::*;
use crate::behavior::RobotBehavior;
use crate::entities::{ResourceType, Robot, Station, World};
use crate::search::{first_resource, SearchUtils};
use crate::types::{ExploreTask, HarvestTask, Task, TaskType};

verus! {

/// Strategy of the harvester class: gather energy and minerals.
pub struct HarvesterBehavior;

/// The kinds a harvester gathers, in the order it states them.
pub open spec fn harvester_preferred() -> Seq<ResourceType> {
    seq![ResourceType::Energy, ResourceType::Mineral]
}

/// The harvester's fallback: step two cells toward the map's center from
/// the current half, clamped to the bounds, taken only if that cell's
/// terrain is plain.
pub open spec fn harvester_fallback_target(robot: Robot, map: World) -> Option<(usize, usize)> {
    let tx0: usize = if robot.x < map.width / 2 {
        (robot.x + 2) as usize
    } else if robot.x >= 2 {
        (robot.x - 2) as usize
    } else {
        0
    };
    let ty0: usize = if robot.y < map.height / 2 {
        (robot.y + 2) as usize
    } else if robot.y >= 2 {
        (robot.y - 2) as usize
    } else {
        0
    };
    let tx: usize = if tx0 > map.width - 1 { (map.width - 1) as usize } else { tx0 };
    let ty: usize = if ty0 > map.height - 1 { (map.height - 1) as usize } else { ty0 };
    if map.terrain_at(tx as int, ty as int) == 0 {
        Some((tx, ty))
    } else {
        None
    }
}

/// The harvester's whole decision: return to the station when carrying or
/// low on energy; else harvest the nearest preferred deposit within radius
/// 4; else fall back to the quadrant-biased exploration step; else nothing.
pub open spec fn harvester_decide_spec(robot: Robot, map: World, station: Station) -> Option<
    Task,
> {
    if robot.carrying is Some || robot.energy < 15 {
        Some(
            Task {
                task_type: TaskType::ReturnToStation,
                target_position: Some((station.x, station.y)),
                priority: 10,
            },
        )
    } else {
        match first_resource(map, harvester_preferred(), robot.x as int, robot.y as int, 4) {
            Some(p) => Some(
                Task {
                    task_type: TaskType::Harvest(
                        HarvestTask { resource_type: p.1, target_position: p.0 },
                    ),
                    target_position: Some(p.0),
                    priority: 8,
                },
            ),
            None => match harvester_fallback_target(robot, map) {
                Some(t) => Some(
                    Task {
                        task_type: TaskType::Explore(ExploreTask { target_area: t, radius: 2 }),
                        target_position: Some(t),
                        priority: 6,
                    },
                ),
                None => None,
            },
        }
    }
}

impl RobotBehavior for HarvesterBehavior {
    open spec fn decide_req(&self, robot: Robot, map: World) -> bool {
        &&& map.width >= 1
        &&& map.height >= 1
        &&& robot.x <= i32::MAX
        &&& robot.y <= i32::MAX
    }

    open spec fn decide_spec(&self, robot: Robot, map: World, station: Station) -> Option<Task> {
        harvester_decide_spec(robot, map, station)
    }

    open spec fn preferred_spec(&self) -> Seq<ResourceType> {
        harvester_preferred()
    }

    open spec fn rate_spec(&self) -> u32 {
        3
    }

    open spec fn can_perform_spec(&self, task: Task) -> bool {
        match task.task_type {
            TaskType::Harvest(_) => true,
            TaskType::Explore(_) => true,
            TaskType::ReturnToStation => true,
            _ => false,
        }
    }

    fn decide_next_action(&self, robot: &Robot, map: &World, station: &Station) -> (r: Option<
        Task,
    >) {
        if robot.carrying.is_some() || robot.energy < 15 {
            return Some(
                Task {
                    task_type: TaskType::ReturnToStation,
                    target_position: Some((station.x, station.y)),
                    priority: 10,
                },
            );
        }
        if let Some((pos, resource_type)) = self.find_nearby_resource(robot, map) {
            return Some(
                Task {
                    task_type: TaskType::Harvest(
                        HarvestTask { resource_type, target_position: pos },
                    ),
                    target_position: Some(pos),
                    priority: 8,
                },
            );
        }
        if let Some(exploration_target) = self.get_resource_exploration_target(robot, map) {
            return Some(
                Task {
                    task_type: TaskType::Explore(
                        ExploreTask { target_area: exploration_target, radius: 2 },
                    ),
                    target_position: Some(exploration_target),
                    priority: 6,
                },
            );
        }
        None
    }

    fn get_preferred_resources(&self) -> (r: Vec<ResourceType>) {
        let mut v: Vec<ResourceType> = Vec::new();
        v.push(ResourceType::Energy);
        v.push(ResourceType::Mineral);
        proof {
            assert(v@ =~= harvester_preferred());
        }
        v
    }

    fn get_energy_consumption_rate(&self) -> (r: u32) {
        3
    }

    fn can_perform_task(&self, task: &Task) -> (b: bool) {
        matches!(
            task.task_type,
            TaskType::Harvest(_) | TaskType::Explore(_) | TaskType::ReturnToStation
        )
    }
}

impl HarvesterBehavior {
    /// The nearest deposit of a preferred kind within radius 4, with its kind.
    pub fn find_nearby_resource(&self, robot: &Robot, map: &World) -> (r: Option<
        ((usize, usize), ResourceType),
    >)
        requires
            map.wf(),
            robot.x <= i32::MAX,
            robot.y <= i32::MAX,
        ensures
            r == first_resource(*map, harvester_preferred(), robot.x as int, robot.y as int, 4),
    {
        let mut preferred_types: Vec<ResourceType> = Vec::new();
        preferred_types.push(ResourceType::Energy);
        preferred_types.push(ResourceType::Mineral);
        proof {
            assert(preferred_types@ =~= harvester_preferred());
        }
        SearchUtils::find_nearest_resource(robot.x, robot.y, 4, map, &preferred_types)
    }

    /// The quadrant-biased fallback step toward the map's center.
    pub fn get_resource_exploration_target(&self, robot: &Robot, map: &World) -> (r: Option<
        (usize, usize),
    >)
        requires
            map.wf(),
            map.width >= 1,
            map.height >= 1,
            robot.x <= i32::MAX,
            robot.y <= i32::MAX,
        ensures
            r == harvester_fallback_target(*robot, *map),
    {
        let target_x: usize = if robot.x < map.width / 2 {
            robot.x + 2
        } else if robot.x >= 2 {
            robot.x - 2
        } else {
            0
        };
        let target_y: usize = if robot.y < map.height / 2 {
            robot.y + 2
        } else if robot.y >= 2 {
            robot.y - 2
        } else {
            0
        };
        let tx: usize = if target_x > map.width - 1 {
            map.width - 1
        } else {
            target_x
        };
        let ty: usize = if target_y > map.height - 1 {
            map.height - 1
        } else {
            target_y
        };
        if map.terrain[ty][tx] == 0 {
            Some((tx, ty))
        } else {
            None
        }
    }
}

/// A harvester that is carrying cargo always decides to return to the
/// station, with the station as target and priority 10, regardless of any
/// deposits nearby.
pub proof fn lemma_harvester_carrying_returns_to_station(
    robot: Robot,
    map: World,
    station: Station,
)
    requires
        robot.carrying is Some,
    ensures
        harvester_decide_spec(robot, map, station) == Some(
            Task {
                task_type: TaskType::ReturnToStation,
                target_position: Some((station.x, station.y)),
                priority: 10,
            },
        ),
{
}

/// A harvester low on energy always decides to return to the station.
pub proof fn lemma_harvester_low_energy_returns_to_station(
    robot: Robot,
    map: World,
    station: Station,
)
    requires
        robot.energy < 15,
    ensures
        harvester_decide_spec(robot, map, station) == Some(
            Task {
                task_type: TaskType::ReturnToStation,
                target_position: Some((station.x, station.y)),
                priority: 10,
            },
        ),
{
}

} // verus!
