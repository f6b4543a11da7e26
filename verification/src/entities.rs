use vstd::prelude::*;
use std::collections::HashMap;

verus! {

/// The kinds of deposit a cell of the world can hold.
#[derive(Debug, Clone, Copy, PartialEq, Eq, Hash, Structural)]
pub enum ResourceType {
    Energy,
    Mineral,
    ScientificInterest,
}

/// The classes of robot the simulation drives.
#[derive(Debug, Clone, Copy, PartialEq, Eq, Structural)]
pub enum RobotType {
    Explorer,
    Harvester,
    Scientist,
}

/// The generated world: a terrain grid, a fog-of-war grid, and the deposits.
///
/// `terrain` and `discovered` hold exactly `height` rows of `width` columns.
/// `resources` is keyed by the row-major cell index `y * width + x` of the
/// deposit's cell, so every key lies below `width * height`.
pub struct World {
    pub width: usize,
    pub height: usize,
    pub terrain: Vec<Vec<u8>>,
    pub resources: HashMap<u64, (ResourceType, u32)>,
    pub discovered: Vec<Vec<bool>>,
    pub seed: u64,
}

/// A robot as the decision engine sees it: the engine only reads these
/// fields, it never mutates a robot.
pub struct Robot {
    pub id: usize,
    pub robot_type: RobotType,
    pub x: usize,
    pub y: usize,
    pub energy: u32,
    pub carrying: Option<(ResourceType, u32)>,
}

/// The home base robots return to. The core reads its position only;
/// its stores are mutated by the external driver alone.
pub struct Station {
    pub resources: HashMap<ResourceType, u32>,
    pub discoveries: u32,
    pub x: usize,
    pub y: usize,
}

} // verus!
