use vstd::prelude::*;
use crate::entities::{ResourceType, Robot, RobotType, Station, World};
use crate::explorer::ExplorerBehavior;
use crate::harvester::HarvesterBehavior;
use crate::scientist::ScientistBehavior;
use crate::types::Task;

verus! {

/// The shared contract of the per-class decision strategies.
///
/// Each implementor states its whole observable behavior as spec functions
/// — the decision itself, the preferred resource kinds, the energy
/// consumption rate and the task capabilities — and the executable methods
/// promise to return exactly those values. `decide_req` names the inputs a
/// class's decision is defined on (a minimum world size, coordinates small
/// enough for the window searches).
pub trait RobotBehavior {
    /// The inputs this class's decision is defined on.
    spec fn decide_req(&self, robot: Robot, map: World) -> bool;

    /// The decision, as a mathematical function of robot, world and station.
    spec fn decide_spec(&self, robot: Robot, map: World, station: Station) -> Option<Task>;

    /// The resource kinds this class prefers, in priority order.
    spec fn preferred_spec(&self) -> Seq<ResourceType>;

    /// Energy drawn per tick.
    spec fn rate_spec(&self) -> u32;

    /// Which tasks this class accepts.
    spec fn can_perform_spec(&self, task: Task) -> bool;

    /// Evaluates the class's fixed decision order: return-to-station when
    /// carrying or low on energy, then the class's search, then its
    /// deterministic fallback exploration, then no task.
    fn decide_next_action(&self, robot: &Robot, map: &World, station: &Station) -> (r: Option<
        Task,
    >)
        requires
            map.wf(),
            self.decide_req(*robot, *map),
        ensures
            r == self.decide_spec(*robot, *map, *station),
    ;

    fn get_preferred_resources(&self) -> (r: Vec<ResourceType>)
        ensures
            r@ == self.preferred_spec(),
    ;

    fn get_energy_consumption_rate(&self) -> (r: u32)
        ensures
            r == self.rate_spec(),
    ;

    fn can_perform_task(&self, task: &Task) -> (b: bool)
        ensures
            b == self.can_perform_spec(*task),
    ;
}

/// The strategy a robot class dispatches to.
pub fn create_behavior(robot_type: &RobotType) -> (r: Box<dyn RobotBehavior>) {
    match robot_type {
        RobotType::Explorer => Box::new(ExplorerBehavior),
        RobotType::Harvester => Box::new(HarvesterBehavior),
        RobotType::Scientist => Box::new(ScientistBehavior),
    }
}

} // verus!
