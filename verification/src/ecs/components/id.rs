use vstd::prelude::*;

verus! {

/// The player an entity stands for: its player number and its peer's address.
#[derive(Debug, Clone, Default)]
pub struct Player {
    pub id: u32,
    pub address: String,
}

/// The number by which clients know an entity.
#[derive(Debug, Clone, Copy, Default, PartialEq, Eq, Structural)]
pub struct NetworkId(pub u32);

impl Player {
    /// Whether this player is the actor `actor_id` connected from `peer`.
    pub fn is_actor(&self, actor_id: u32, peer: &String) -> (b: bool)
        ensures
            b == (self.id == actor_id && self.address@ == peer@),
    {
        self.id == actor_id && self.address == *peer
    }

    /// Whether this player connected from `peer`.
    pub fn is_from(&self, peer: &String) -> (b: bool)
        ensures
            b == (self.address@ == peer@),
    {
        self.address == *peer
    }
}

} // verus!
