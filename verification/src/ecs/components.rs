pub mod id;
pub mod player_name;
pub mod sprite;
pub mod transform;
