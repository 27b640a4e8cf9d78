pub mod input_system;
pub mod chunk_load_system;
pub mod direction_system;
