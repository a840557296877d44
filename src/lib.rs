//! Spatial-simulation core of a tile-based resort builder: the occupancy
//! ledger, the construction and deconstruction pipelines, worker priorities
//! and job scheduling, room detection and zone classification.
pub mod grid;
pub mod building;
pub mod furniture;
pub mod work;
pub mod occupancy;
pub mod jobs;
pub mod economy;
pub mod level;
pub mod placement;
pub mod scheduler;
pub mod pipeline;
pub mod deconstruction;
pub mod rooms;
pub mod zones;
pub mod snapshot;
pub mod controls;
