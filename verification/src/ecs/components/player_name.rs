use vstd::prelude::*;

verus! {

/// The name a player chose.
#[derive(Debug, Clone, Default)]
pub struct PlayerName(pub String);

} // verus!
