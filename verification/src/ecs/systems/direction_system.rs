use vstd::prelude::*;

use crate::ecs::components::transform::{AnimState, Direction};

verus! {

/// How an entity's velocity reads: whether it moves at all, whether its vertical speed is at
/// least its horizontal speed, and the signs of its two components.
#[derive(Debug, Clone, Copy, PartialEq, Eq, Structural)]
pub struct VelocitySigns {
    /// Some component is non-zero.
    pub moving: bool,
    /// The vertical speed is at least the horizontal speed.
    pub vertical: bool,
    /// The vertical component is negative.
    pub up: bool,
    /// The horizontal component is negative.
    pub left: bool,
}

/// The name of the animation a moving or resting entity plays.
pub open spec fn anim_name(moving: bool) -> Seq<char> {
    if moving {
        seq!['w', 'a', 'l', 'k']
    } else {
        seq!['i', 'd', 'l', 'e']
    }
}

/// The way an entity faces after moving as `v` reads, having faced `current`.
pub open spec fn facing(v: VelocitySigns, current: Direction) -> Direction {
    if !v.moving {
        current
    } else if v.vertical {
        if v.up {
            Direction::Up
        } else {
            Direction::Down
        }
    } else {
        if v.left {
            Direction::Left
        } else {
            Direction::Right
        }
    }
}

/// Turns entities toward the way they move and picks their walking or idle animation.
pub struct DirectionSystem;

impl DirectionSystem {
    /// Updates one entity's direction and animation from its velocity.
    pub fn apply(v: VelocitySigns, dir: &mut Direction, anim: &mut AnimState)
        ensures
            final(anim).0@ == anim_name(v.moving),
            *final(dir) == facing(v, *old(dir)),
            v.moving ==> final(anim).0@ == seq!['w', 'a', 'l', 'k'],
            !v.moving ==> final(anim).0@ == seq!['i', 'd', 'l', 'e'],
            !v.moving ==> *final(dir) == *old(dir),
            v.moving && v.vertical ==> *final(dir) == if v.up {
                Direction::Up
            } else {
                Direction::Down
            },
            v.moving && !v.vertical ==> *final(dir) == if v.left {
                Direction::Left
            } else {
                Direction::Right
            },
    {
        proof {
            reveal_strlit("walk");
            reveal_strlit("idle");
        }
        let new_anim = if v.moving {
            "walk"
        } else {
            "idle"
        };
        assert(new_anim@ =~= anim_name(v.moving));
        let target = String::from_str(new_anim);
        if !(anim.0 == target) {
            anim.0 = target;
        }
        if !v.moving {
            return;
        }
        if v.vertical {
            if v.up {
                *dir = Direction::Up;
            } else {
                *dir = Direction::Down;
            }
        } else {
            if v.left {
                *dir = Direction::Left;
            } else {
                *dir = Direction::Right;
            }
        }
    }
}

/// A moving entity faces along its dominant axis, toward the sign of that component: up or
/// down when the vertical speed is at least the horizontal one (whatever the horizontal
/// sign), left or right otherwise (whatever the vertical sign).
pub proof fn lemma_faces_dominant_axis(v: VelocitySigns, d: Direction)
    requires
        v.moving,
    ensures
        v.vertical && v.up ==> facing(v, d) == Direction::Up,
        v.vertical && !v.up ==> facing(v, d) == Direction::Down,
        !v.vertical && v.left ==> facing(v, d) == Direction::Left,
        !v.vertical && !v.left ==> facing(v, d) == Direction::Right,
        anim_name(v.moving) == seq!['w', 'a', 'l', 'k'],
{
}

/// A resting entity keeps facing the way it faced.
pub proof fn lemma_rest_keeps_direction(v: VelocitySigns, current: Direction)
    requires
        !v.moving,
    ensures
        facing(v, current) == current,
        anim_name(v.moving) == seq!['i', 'd', 'l', 'e'],
{
}

/// Where an entity ends up facing depends only on its velocity once it moves.
pub proof fn lemma_moving_forgets_direction(v: VelocitySigns, a: Direction, b: Direction)
    requires
        v.moving,
    ensures
        facing(v, a) == facing(v, b),
{
}

/// The update settles at once: a second application with the same velocity, after a first
/// one took the entity from `d0` to direction `d1` and animation `a1`, leaves direction `d2`
/// and animation `a2` equal to those.
pub proof fn lemma_update_settles(
    v: VelocitySigns,
    d0: Direction,
    d1: Direction,
    a1: Seq<char>,
    d2: Direction,
    a2: Seq<char>,
)
    requires
        d1 == facing(v, d0),
        a1 == anim_name(v.moving),
        d2 == facing(v, d1),
        a2 == anim_name(v.moving),
    ensures
        d2 == d1,
        a2 == a1,
{
}

} // verus!
