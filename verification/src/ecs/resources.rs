pub mod world_manager;
pub mod counters;
