use vstd::prelude::*;

verus! {

/// The kinds of object the world holds.
#[derive(Debug, Clone, Copy, PartialEq, Eq, Structural)]
pub enum ObjectModel {
    Player,
}

/// A position on the world grid.
#[derive(Debug, Clone, Copy, PartialEq, Eq, Structural)]
pub struct Position {
    pub x: i16,
    pub y: i16,
    pub z: i16,
}

impl Position {
    pub fn new(x: i16, y: i16, z: i16) -> (p: Self)
        ensures
            p == (Position { x, y, z }),
    {
        Self { x, y, z }
    }
}

/// Where an object stands.
#[derive(Debug, Clone, Copy, PartialEq, Eq, Structural)]
pub struct Transform {
    pub position: Position,
}

impl Transform {
    pub fn new(x: i16, y: i16, z: i16) -> (t: Self)
        ensures
            t.position == (Position { x, y, z }),
    {
        Self { position: Position::new(x, y, z) }
    }
}

/// The eight ways an object can be told to move.
#[derive(Debug, Clone, Copy, PartialEq, Eq, Structural)]
pub enum Direction {
    NORTH,
    WEST,
    SOUTH,
    EAST,
    NORTHWEST,
    NORTHEAST,
    SOUTHWEST,
    SOUTHEAST,
}

/// The step, along `x` and `z`, that a move in direction `d` makes: north and south move
/// along `z`, west and east along `x`, the diagonal directions not at all.
pub open spec fn step(d: Direction) -> (int, int) {
    match d {
        Direction::NORTH => (0, -1),
        Direction::WEST => (-1, 0),
        Direction::SOUTH => (0, 1),
        Direction::EAST => (1, 0),
        _ => (0, 0),
    }
}

/// The direction opposite to `d`.
pub open spec fn opposite(d: Direction) -> Direction {
    match d {
        Direction::NORTH => Direction::SOUTH,
        Direction::WEST => Direction::EAST,
        Direction::SOUTH => Direction::NORTH,
        Direction::EAST => Direction::WEST,
        Direction::NORTHWEST => Direction::SOUTHEAST,
        Direction::NORTHEAST => Direction::SOUTHWEST,
        Direction::SOUTHWEST => Direction::NORTHEAST,
        Direction::SOUTHEAST => Direction::NORTHWEST,
    }
}

/// Whether a move in direction `d` from `p` stays on the grid.
pub open spec fn can_move(p: Position, d: Direction) -> bool {
    &&& i16::MIN <= p.x + step(d).0 <= i16::MAX
    &&& i16::MIN <= p.z + step(d).1 <= i16::MAX
}

/// The position reached from `p` by a move in direction `d`.
pub open spec fn after_move(p: Position, d: Direction) -> Position {
    Position { x: (p.x + step(d).0) as i16, y: p.y, z: (p.z + step(d).1) as i16 }
}

/// An object of the world: its identifier, its model, the address of the peer that owns it,
/// and where it stands.
#[derive(Debug, Clone)]
pub struct Object {
    pub id: String,
    pub model: ObjectModel,
    pub owner: String,
    pub transform: Transform,
}

impl Object {
    /// Whether `self` is `before` with only its position changed, to `p`.
    pub open spec fn moved_to(self, before: Object, p: Position) -> bool {
        &&& self.transform.position == p
        &&& self.id == before.id
        &&& self.owner == before.owner
        &&& self.model == before.model
    }

    /// A new object with the given identifier, standing at the origin.
    pub fn new_with_id(id: String, owner: String, model: ObjectModel) -> (o: Self)
        ensures
            o.id == id,
            o.owner == owner,
            o.model == model,
            o.transform.position == (Position { x: 0, y: 0, z: 0 }),
    {
        Object { transform: Transform::new(0, 0, 0), owner, model, id }
    }

    pub fn set_pos(&mut self, pos: Position)
        ensures
            final(self).moved_to(*old(self), pos),
    {
        self.transform.position = pos;
    }

    pub fn set_x(&mut self, x: i16)
        ensures
            final(self).moved_to(*old(self), Position { x, ..old(self).transform.position }),
    {
        self.transform.position.x = x;
    }

    pub fn set_y(&mut self, y: i16)
        ensures
            final(self).moved_to(*old(self), Position { y, ..old(self).transform.position }),
    {
        self.transform.position.y = y;
    }

    pub fn set_z(&mut self, z: i16)
        ensures
            final(self).moved_to(*old(self), Position { z, ..old(self).transform.position }),
    {
        self.transform.position.z = z;
    }

    pub fn sum_x(&mut self, x: i16)
        requires
            i16::MIN <= old(self).transform.position.x + x <= i16::MAX,
        ensures
            final(self).moved_to(
                *old(self),
                Position {
                    x: (old(self).transform.position.x + x) as i16,
                    ..old(self).transform.position
                },
            ),
    {
        self.transform.position.x += x;
    }

    pub fn sum_y(&mut self, y: i16)
        requires
            i16::MIN <= old(self).transform.position.y + y <= i16::MAX,
        ensures
            final(self).moved_to(
                *old(self),
                Position {
                    y: (old(self).transform.position.y + y) as i16,
                    ..old(self).transform.position
                },
            ),
    {
        self.transform.position.y += y;
    }

    pub fn sum_z(&mut self, z: i16)
        requires
            i16::MIN <= old(self).transform.position.z + z <= i16::MAX,
        ensures
            final(self).moved_to(
                *old(self),
                Position {
                    z: (old(self).transform.position.z + z) as i16,
                    ..old(self).transform.position
                },
            ),
    {
        self.transform.position.z += z;
    }

    pub fn get_owner(&self) -> (o: &String)
        ensures
            *o == self.owner,
    {
        &self.owner
    }

    pub fn get_id(&self) -> (id: String)
        ensures
            id == self.id,
    {
        self.id.clone()
    }
}

/// Moves an object one step in direction `d`.
pub fn move_obj(obj: &mut Object, direction: Direction)
    requires
        can_move(old(obj).transform.position, direction),
    ensures
        final(obj).moved_to(*old(obj), after_move(old(obj).transform.position, direction)),
        final(obj).transform.position.y == old(obj).transform.position.y,
        direction == Direction::NORTH ==> final(obj).transform.position.x == old(
            obj,
        ).transform.position.x && final(obj).transform.position.z == old(obj).transform.position.z
            - 1,
        direction == Direction::SOUTH ==> final(obj).transform.position.x == old(
            obj,
        ).transform.position.x && final(obj).transform.position.z == old(obj).transform.position.z
            + 1,
        direction == Direction::WEST ==> final(obj).transform.position.x == old(
            obj,
        ).transform.position.x - 1 && final(obj).transform.position.z == old(
            obj,
        ).transform.position.z,
        direction == Direction::EAST ==> final(obj).transform.position.x == old(
            obj,
        ).transform.position.x + 1 && final(obj).transform.position.z == old(
            obj,
        ).transform.position.z,
        !(direction == Direction::NORTH || direction == Direction::SOUTH || direction
            == Direction::WEST || direction == Direction::EAST) ==> final(obj).transform.position
            == old(obj).transform.position,
{
    if direction == Direction::NORTH {
        obj.sum_z(-1);
    }
    if direction == Direction::WEST {
        obj.sum_x(-1);
    }
    if direction == Direction::SOUTH {
        obj.sum_z(1);
    }
    if direction == Direction::EAST {
        obj.sum_x(1);
    }
}

/// Only the four cardinal directions move an object, one step along one axis: north and
/// south change `z` by -1 and +1, west and east change `x` by -1 and +1; the diagonal
/// directions leave it where it is.
pub proof fn lemma_move_steps(p: Position, d: Direction)
    ensures
        after_move(p, d).y == p.y,
        d == Direction::NORTH ==> step(d) == (0int, -1int),
        d == Direction::SOUTH ==> step(d) == (0int, 1int),
        d == Direction::WEST ==> step(d) == (-1int, 0int),
        d == Direction::EAST ==> step(d) == (1int, 0int),
        !(d == Direction::NORTH || d == Direction::SOUTH || d == Direction::WEST || d
            == Direction::EAST) ==> after_move(p, d) == p && step(d) == (0int, 0int),
{
}

/// A move undone by a move the opposite way leaves an object where it was.
pub proof fn lemma_opposite_moves_cancel(p: Position, d: Direction)
    requires
        can_move(p, d),
    ensures
        can_move(after_move(p, d), opposite(d)),
        after_move(after_move(p, d), opposite(d)) == p,
{
}

/// The identifiers of the objects owned by `peer`, in the order the objects are listed.
pub open spec fn owned_ids(objects: Seq<Object>, peer: Seq<char>) -> Seq<String>
    decreases objects.len(),
{
    if objects.len() == 0 {
        Seq::empty()
    } else {
        let before = owned_ids(objects.drop_last(), peer);
        if objects.last().owner@ == peer {
            before.push(objects.last().id)
        } else {
            before
        }
    }
}

/// The identifiers of the objects owned by the peer at `peer`.
pub fn get_player_obj_ids(objects: &Vec<Object>, peer: &String) -> (ids: Vec<String>)
    ensures
        ids@ == owned_ids(objects@, peer@),
{
    let mut ids: Vec<String> = Vec::new();
    let mut i: usize = 0;
    while i < objects.len()
        invariant
            0 <= i <= objects@.len(),
            ids@ == owned_ids(objects@.take(i as int), peer@),
        decreases objects@.len() - i,
    {
        assert(objects@.take(i + 1).drop_last() =~= objects@.take(i as int));
        if objects[i].owner == *peer {
            ids.push(objects[i].get_id());
        }
        i = i + 1;
    }
    assert(objects@.take(objects@.len() as int) =~= objects@);
    ids
}

} // verus!
