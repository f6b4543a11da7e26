pub mod behavior;
pub mod config;
pub mod entities;
pub mod explorer;
pub mod harvester;
pub mod map;
pub mod pathfinding;
pub mod rng;
pub mod scientist;
pub mod search;
pub mod types;
