use vstd::prelude::*;

verus! {

/// The kinds of sprite an entity can be drawn with.
#[derive(Debug, Clone, Copy, PartialEq, Eq, Structural)]
pub enum SpriteType {
    Human,
}

impl SpriteType {
    /// The sprite's name, as sent to clients.
    pub open spec fn name(self) -> Seq<char> {
        match self {
            SpriteType::Human => seq!['h', 'u', 'm', 'a', 'n'],
        }
    }

    pub fn to_string(&self) -> (s: String)
        ensures
            s@ == self.name(),
    {
        proof {
            reveal_strlit("human");
        }
        match self {
            SpriteType::Human => String::from_str("human"),
        }
    }
}

/// The sprite an entity is drawn with.
#[derive(Debug, Clone, Copy, PartialEq, Eq, Structural)]
pub struct Sprite(pub SpriteType);

} // verus!
