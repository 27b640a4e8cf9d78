use vstd::prelude::*;

verus! {

/// The way an entity faces.
#[derive(Debug, Clone, Copy, PartialEq, Eq, Structural)]
pub enum Direction {
    Down,
    Left,
    Right,
    Up,
}

impl Direction {
    /// The direction's name, as sent to clients.
    pub open spec fn name(self) -> Seq<char> {
        match self {
            Direction::Down => seq!['d', 'o', 'w', 'n'],
            Direction::Left => seq!['l', 'e', 'f', 't'],
            Direction::Right => seq!['r', 'i', 'g', 'h', 't'],
            Direction::Up => seq!['u', 'p'],
        }
    }

    pub fn as_str(&self) -> (s: &'static str)
        ensures
            s@ == self.name(),
    {
        proof {
            reveal_strlit("down");
            reveal_strlit("left");
            reveal_strlit("right");
            reveal_strlit("up");
        }
        match self {
            Direction::Down => "down",
            Direction::Left => "left",
            Direction::Right => "right",
            Direction::Up => "up",
        }
    }
}

impl Default for Direction {
    /// An entity faces down until it first moves.
    fn default() -> (d: Self)
        ensures
            d == Direction::Down,
    {
        Direction::Down
    }
}

/// Distinct directions have distinct names.
pub proof fn lemma_direction_names_distinct(a: Direction, b: Direction)
    ensures
        a.name() == b.name() <==> a == b,
{
    if a != b {
        assert(a.name().len() != b.name().len() || a.name()[0] != b.name()[0]);
    }
}

/// The animation an entity plays, by name.
#[derive(Debug, Clone, Default)]
pub struct AnimState(pub String);

} // verus!
