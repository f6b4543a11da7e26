use vstd::prelude::*;
use crate::entities::ResourceType;

verus! {

/// High-level activity label for a robot; bookkeeping for the external driver.
#[derive(Debug, Clone, Copy, PartialEq, Eq, Structural)]
pub enum RobotState {
    Idle,
    Exploring,
    MovingToResource,
    Harvesting,
    ReturningToStation,
    Analyzing,
    Searching,
}

/// A priority-tagged intent emitted by a behavior for the external driver
/// to execute. Tasks are value objects: produced fresh each decision and
/// never mutated.
#[derive(Debug, PartialEq)]
pub struct Task {
    pub task_type: TaskType,
    pub target_position: Option<(usize, usize)>,
    pub priority: u8,
}

#[derive(Debug, PartialEq)]
pub enum TaskType {
    Explore(ExploreTask),
    Harvest(HarvestTask),
    Analyze(AnalyzeTask),
    ReturnToStation,
}

#[derive(Debug, PartialEq)]
pub struct ExploreTask {
    pub target_area: (usize, usize),
    pub radius: usize,
}

#[derive(Debug, PartialEq)]
pub struct HarvestTask {
    pub resource_type: ResourceType,
    pub target_position: (usize, usize),
}

#[derive(Debug, PartialEq)]
pub struct AnalyzeTask {
    pub target_position: (usize, usize),
    pub analysis_type: AnalysisType,
}

#[derive(Debug, Clone, Copy, PartialEq, Eq, Structural)]
pub enum AnalysisType {
    Chemical,
}

/// One of the eight king-move steps on the grid.
#[derive(Debug, Clone, Copy, PartialEq, Eq, Structural)]
pub enum Direction {
    North,
    South,
    East,
    West,
    Northeast,
    Northwest,
    Southeast,
    Southwest,
}

impl Direction {
    /// The (dx, dy) offset of one step in this direction; y grows southward.
    pub open spec fn delta_spec(self) -> (i32, i32) {
        match self {
            Direction::North => (0i32, -1i32),
            Direction::South => (0i32, 1i32),
            Direction::East => (1i32, 0i32),
            Direction::West => (-1i32, 0i32),
            Direction::Northeast => (1i32, -1i32),
            Direction::Northwest => (-1i32, -1i32),
            Direction::Southeast => (1i32, 1i32),
            Direction::Southwest => (-1i32, 1i32),
        }
    }

    pub fn to_delta(self) -> (r: (i32, i32))
        ensures
            r == self.delta_spec(),
    {
        match self {
            Direction::North => (0, -1),
            Direction::South => (0, 1),
            Direction::East => (1, 0),
            Direction::West => (-1, 0),
            Direction::Northeast => (1, -1),
            Direction::Northwest => (-1, -1),
            Direction::Southeast => (1, 1),
            Direction::Southwest => (-1, 1),
        }
    }

    /// All eight directions, in the fixed order the pathfinder expands
    /// neighbors in.
    pub open spec fn all_spec() -> Seq<Direction> {
        seq![
            Direction::North,
            Direction::South,
            Direction::East,
            Direction::West,
            Direction::Northeast,
            Direction::Northwest,
            Direction::Southeast,
            Direction::Southwest,
        ]
    }

    pub fn all() -> (r: Vec<Direction>)
        ensures
            r@ == Direction::all_spec(),
    {
        let mut v: Vec<Direction> = Vec::new();
        v.push(Direction::North);
        v.push(Direction::South);
        v.push(Direction::East);
        v.push(Direction::West);
        v.push(Direction::Northeast);
        v.push(Direction::Northwest);
        v.push(Direction::Southeast);
        v.push(Direction::Southwest);
        proof {
            assert(v@ =~= Direction::all_spec());
        }
        v
    }
}

} // verus!
