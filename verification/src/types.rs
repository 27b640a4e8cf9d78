use vstd::prelude::*;

verus! {

/// The kinds of object the world holds.
#[derive(Debug, Clone, Copy, PartialEq, Eq, Structural)]
pub enum ObjectModel {
    Player,
}

/// A position on the world grid.
#[derive(Debug, Clone, Copy, PartialEq, Eq, Structural)]
pub struct Position {
    pub x: i16,
    pub y: i16,
    pub z: i16,
}

impl Position {
    pub fn new(x: i16, y: i16, z: i16) -> (p: Self)
        ensures
            p == (Position { x, y, z }),
    {
        Self { x, y, z }
    }
}

/// Where an object stands.
#[derive(Debug, Clone, Copy, PartialEq, Eq, Structural)]
pub struct Transform {
    pub position: Position,
}

impl Transform {
    pub fn new(x: i16, y: i16, z: i16) -> (t: Self)
        ensures
            t.position == (Position { x, y, z }),
    {
        Self { position: Position::new(x, y, z) }
    }
}

/// An object of the world: its identifier, its model, the address of the peer that owns it,
/// and where it stands.
#[derive(Debug, Clone)]
pub struct Object {
    pub id: String,
    pub model: ObjectModel,
    pub owner: String,
    pub transform: Transform,
}

impl Object {
    /// A new object, standing at the origin.
    pub fn new(id: String, owner: String, model: ObjectModel) -> (o: Self)
        ensures
            o.id == id,
            o.owner == owner,
            o.model == model,
            o.transform.position == (Position { x: 0, y: 0, z: 0 }),
    {
        Self { transform: Transform::new(0, 0, 0), owner, model, id }
    }

    pub fn set_pos(&mut self, x: i16, y: i16, z: i16)
        ensures
            final(self).transform.position == (Position { x, y, z }),
            final(self).id == old(self).id,
            final(self).owner == old(self).owner,
            final(self).model == old(self).model,
    {
        self.transform.position.x = x;
        self.transform.position.y = y;
        self.transform.position.z = z;
    }

    pub fn get_owner(&self) -> (o: &String)
        ensures
            *o == self.owner,
    {
        &self.owner
    }
}

} // verus!
