use vstd::prelude::*;

use crate::common::events::{
    disconnect_notice, Action, ActionMessage, PeerType, ServerOutputEvent,
};
use crate::ecs::components::id::{NetworkId, Player};
use crate::ecs::components::sprite::{Sprite, SpriteType};
use crate::ecs::components::transform::{AnimState, Direction};
use crate::ecs::resources::counters::{NetworkIdCounter, PlayerIdCounter};
use crate::text::{
    chars_of, decimal, parse_u32, parse_u32_spec, trim, trim_bounds, u32_to_decimal,
};

verus! {

/// Speed, in world units per second, of a player walking in one direction.
pub const SPEED: u32 = 50;

/// A message a client sends: what kind of input, which player it drives, and its arguments.
#[derive(Debug, Clone)]
pub struct InputMessage {
    pub input_type: String,
    pub actor_id: String,
    pub args: String,
}

/// What a move input asks of a player's velocity.
#[derive(Debug, Clone, Copy, PartialEq, Eq, Structural)]
pub enum MoveIntent {
    /// Stand still.
    Stop,
    /// Walk at `SPEED` along the direction `(dx, dy)`, or stand still if it is `(0, 0)`.
    Toward { dx: i64, dy: i64 },
}

/// A move input for the player numbered `actor_id`.
#[derive(Debug, Clone, Copy, PartialEq, Eq, Structural)]
pub struct MoveCommand {
    pub actor_id: u32,
    pub intent: MoveIntent,
}

/// Index of the last comma of `s`, or -1 if it has none.
pub open spec fn last_comma(s: Seq<char>) -> int
    decreases s.len(),
{
    if s.len() == 0 {
        -1
    } else if s.last() == ',' {
        s.len() - 1
    } else {
        last_comma(s.drop_last())
    }
}

pub proof fn lemma_last_comma(s: Seq<char>)
    ensures
        -1 <= last_comma(s) < s.len(),
        last_comma(s) >= 0 ==> s[last_comma(s)] == ',',
        forall|i: int| last_comma(s) < i < s.len() ==> s[i] != ',',
    decreases s.len(),
{
    if s.len() > 0 && s.last() != ',' {
        lemma_last_comma(s.drop_last());
        assert forall|i: int| last_comma(s) < i < s.len() implies s[i] != ',' by {
            if i < s.len() - 1 {
                assert(s[i] == s.drop_last()[i]);
            }
        }
    }
}

/// The pieces of `s` between commas, as `str::split(',')` yields them.
pub open spec fn split_commas(s: Seq<char>) -> Seq<Seq<char>>
    decreases s.len(),
{
    proof {
        lemma_last_comma(s);
    }
    let k = last_comma(s);
    if k < 0 {
        seq![s]
    } else {
        split_commas(s.take(k)) + seq![s.skip(k + 1)]
    }
}

/// The step one move code asks for: `0` up, `1` left, `2` down, `3` right, other pieces nothing.
pub open spec fn code_step(piece: Seq<char>) -> (int, int) {
    let t = trim(piece);
    if t == seq!['0'] {
        (0, -1)
    } else if t == seq!['1'] {
        (-1, 0)
    } else if t == seq!['2'] {
        (0, 1)
    } else if t == seq!['3'] {
        (1, 0)
    } else {
        (0, 0)
    }
}

/// The sum of the steps of a list of move codes.
pub open spec fn steps_sum(pieces: Seq<Seq<char>>) -> (int, int)
    decreases pieces.len(),
{
    if pieces.len() == 0 {
        (0, 0)
    } else {
        let (x, y) = steps_sum(pieces.drop_last());
        let (a, b) = code_step(pieces.last());
        (x + a, y + b)
    }
}

/// What the arguments of a move input ask: `stop`, or the sum of the comma-separated codes.
pub open spec fn move_intent_spec(args: Seq<char>) -> MoveIntent {
    if args == seq!['s', 't', 'o', 'p'] {
        MoveIntent::Stop
    } else {
        let (dx, dy) = steps_sum(split_commas(args));
        MoveIntent::Toward { dx: dx as i64, dy: dy as i64 }
    }
}

/// The move command a client message carries: a `Move` input whose actor is a `u32`.
pub open spec fn interpret_spec(msg: InputMessage) -> Option<MoveCommand> {
    if msg.input_type@ == seq!['M', 'o', 'v', 'e'] && parse_u32_spec(msg.actor_id@) is Some {
        Some(
            MoveCommand {
                actor_id: parse_u32_spec(msg.actor_id@).unwrap(),
                intent: move_intent_spec(msg.args@),
            },
        )
    } else {
        None
    }
}

fn chars_equal(a: &Vec<char>, b: &Vec<char>) -> (r: bool)
    ensures
        r == (a@ == b@),
{
    if a.len() != b.len() {
        return false;
    }
    let mut i: usize = 0;
    while i < a.len()
        invariant
            a@.len() == b@.len(),
            0 <= i <= a@.len(),
            forall|k: int| 0 <= k < i ==> a@[k] == b@[k],
        decreases a@.len() - i,
    {
        if a[i] != b[i] {
            return false;
        }
        i = i + 1;
    }
    assert(a@ =~= b@);
    true
}

/// The step of the piece `s[start..end]`, and whether it is a code.
fn piece_step(s: &Vec<char>, start: usize, end: usize) -> (r: (i64, i64))
    requires
        start <= end <= s@.len(),
    ensures
        r.0 == code_step(s@.subrange(start as int, end as int)).0,
        r.1 == code_step(s@.subrange(start as int, end as int)).1,
        (r.0 != 0 || r.1 != 0) ==> start < end,
        -1 <= r.0 <= 1,
        -1 <= r.1 <= 1,
        r.0 == 0 || r.1 == 0,
{
    let (lo, hi) = trim_bounds(s, start, end);
    let ghost t = s@.subrange(lo as int, hi as int);
    if hi - lo != 1 {
        assert(t.len() != 1);
        return (0, 0);
    }
    let c = s[lo];
    assert(t =~= seq![c]);
    proof {
        lemma_single_char_code(c);
    }
    if c == '0' {
        (0, -1)
    } else if c == '1' {
        (-1, 0)
    } else if c == '2' {
        (0, 1)
    } else if c == '3' {
        (1, 0)
    } else {
        (0, 0)
    }
}

proof fn lemma_single_char_code(c: char)
    ensures
        (seq![c] == seq!['0']) == (c == '0'),
        (seq![c] == seq!['1']) == (c == '1'),
        (seq![c] == seq!['2']) == (c == '2'),
        (seq![c] == seq!['3']) == (c == '3'),
{
    assert(seq![c][0] == c);
    if c == '0' {
        assert(seq![c] =~= seq!['0']);
    }
    if c == '1' {
        assert(seq![c] =~= seq!['1']);
    }
    if c == '2' {
        assert(seq![c] =~= seq!['2']);
    }
    if c == '3' {
        assert(seq![c] =~= seq!['3']);
    }
}

proof fn lemma_steps_push(ps: Seq<Seq<char>>, p: Seq<char>)
    ensures
        steps_sum(ps.push(p)) == ((steps_sum(ps).0 + code_step(p).0), (steps_sum(ps).1 + code_step(
            p,
        ).1)),
{
    assert(ps.push(p).drop_last() =~= ps);
}

/// The pieces of `s` before the one starting at `start`.
spec fn pieces_before(s: Seq<char>, start: int) -> Seq<Seq<char>> {
    if start == 0 {
        Seq::empty()
    } else {
        split_commas(s.take(start - 1))
    }
}

proof fn lemma_split_prefix(s: Seq<char>, start: int, k: int)
    requires
        0 <= start <= k <= s.len(),
        last_comma(s.take(k)) == start - 1,
    ensures
        split_commas(s.take(k)) == pieces_before(s, start).push(s.subrange(start, k)),
{
    let p = s.take(k);
    lemma_last_comma(p);
    if start == 0 {
        assert(p =~= s.subrange(0, k));
        assert(split_commas(p) =~= seq![p]);
    } else {
        assert(p.take(start - 1) =~= s.take(start - 1));
        assert(p.skip(start) =~= s.subrange(start, k));
    }
}

/// Reads the arguments of a move input.
pub fn parse_move_args(args: &String) -> (intent: MoveIntent)
    requires
        args@.len() <= isize::MAX,
    ensures
        intent == move_intent_spec(args@),
{
    let cs = chars_of(args.as_str());
    proof {
        reveal_strlit("stop");
    }
    let stop = chars_of("stop");
    assert(stop@ =~= seq!['s', 't', 'o', 'p']);
    if chars_equal(&cs, &stop) {
        return MoveIntent::Stop;
    }
    let len = cs.len();
    let mut dx: i64 = 0;
    let mut dy: i64 = 0;
    let mut start: usize = 0;
    let mut k: usize = 0;
    while k < len
        invariant
            cs@ == args@,
            len == cs@.len(),
            len <= isize::MAX,
            start <= k <= len,
            last_comma(cs@.take(k as int)) == start - 1,
            dx == steps_sum(pieces_before(cs@, start as int)).0,
            dy == steps_sum(pieces_before(cs@, start as int)).1,
            (if dx >= 0 { dx as int } else { -dx }) + (if dy >= 0 { dy as int } else { -dy }) <= start,
        decreases len - k,
    {
        assert(cs@.take(k + 1).drop_last() =~= cs@.take(k as int));
        if cs[k] == ',' {
            proof {
                lemma_split_prefix(cs@, start as int, k as int);
                lemma_steps_push(pieces_before(cs@, start as int), cs@.subrange(start as int, k as int));
            }
            let (a, b) = piece_step(&cs, start, k);
            dx = dx + a;
            dy = dy + b;
            start = k + 1;
        }
        k = k + 1;
    }
    assert(cs@.take(len as int) =~= cs@);
    proof {
        lemma_split_prefix(cs@, start as int, len as int);
        lemma_steps_push(pieces_before(cs@, start as int), cs@.subrange(start as int, len as int));
    }
    let (a, b) = piece_step(&cs, start, len);
    dx = dx + a;
    dy = dy + b;
    assert(split_commas(cs@) == pieces_before(cs@, start as int).push(
        cs@.subrange(start as int, len as int),
    ));
    assert(dx == steps_sum(split_commas(args@)).0);
    assert(dy == steps_sum(split_commas(args@)).1);
    MoveIntent::Toward { dx, dy }
}

/// What the input system does for a newly connected peer: the player it creates, with the
/// direction, animation and sprite it starts with, and the message that tells the peer its
/// player number.
#[derive(Debug, Clone)]
pub struct Arrival {
    pub player: Player,
    pub network_id: NetworkId,
    pub direction: Direction,
    pub anim_state: AnimState,
    pub sprite: Sprite,
    pub welcome: ServerOutputEvent,
}

/// The input system: turns peer events into player changes and server messages.
pub struct InputSystem;

impl InputSystem {
    /// The move command a client message carries, if it is a `Move` input for a numbered actor.
    pub fn interpret(msg: &InputMessage) -> (cmd: Option<MoveCommand>)
        requires
            msg.args@.len() <= isize::MAX,
        ensures
            cmd == interpret_spec(*msg),
    {
        proof {
            reveal_strlit("Move");
        }
        let kind = chars_of(msg.input_type.as_str());
        let mv = chars_of("Move");
        assert(mv@ =~= seq!['M', 'o', 'v', 'e']);
        if !chars_equal(&kind, &mv) {
            return None;
        }
        let actor_id = match parse_u32(msg.actor_id.as_str()) {
            Some(id) => id,
            None => return None,
        };
        let intent = parse_move_args(&msg.args);
        Some(MoveCommand { actor_id, intent })
    }

    /// The position of the first of `players` that is the actor `actor_id` connected from
    /// `peer`: the player a move command drives.
    pub fn find_actor(players: &Vec<Player>, actor_id: u32, peer: &String) -> (r: Option<usize>)
        ensures
            match r {
                Some(i) => {
                    &&& i < players@.len()
                    &&& players@[i as int].id == actor_id
                    &&& players@[i as int].address@ == peer@
                    &&& forall|j: int|
                        0 <= j < i ==> !(#[trigger] players@[j].id == actor_id
                            && players@[j].address@ == peer@)
                },
                None => forall|j: int|
                    0 <= j < players@.len() ==> !(#[trigger] players@[j].id == actor_id
                        && players@[j].address@ == peer@),
            },
    {
        let mut i: usize = 0;
        while i < players.len()
            invariant
                0 <= i <= players@.len(),
                forall|j: int|
                    0 <= j < i ==> !(#[trigger] players@[j].id == actor_id && players@[j].address@
                        == peer@),
            decreases players@.len() - i,
        {
            if players[i].is_actor(actor_id, peer) {
                return Some(i);
            }
            i = i + 1;
        }
        None
    }

    /// The position of the first of `players` connected from `peer`: the player removed when
    /// that peer disconnects.
    pub fn find_peer_player(players: &Vec<Player>, peer: &String) -> (r: Option<usize>)
        ensures
            match r {
                Some(i) => {
                    &&& i < players@.len()
                    &&& players@[i as int].address@ == peer@
                    &&& forall|j: int| 0 <= j < i ==> (#[trigger] players@[j]).address@ != peer@
                },
                None => forall|j: int|
                    0 <= j < players@.len() ==> (#[trigger] players@[j]).address@ != peer@,
            },
    {
        let mut i: usize = 0;
        while i < players.len()
            invariant
                0 <= i <= players@.len(),
                forall|j: int| 0 <= j < i ==> (#[trigger] players@[j]).address@ != peer@,
            decreases players@.len() - i,
        {
            if players[i].is_from(peer) {
                return Some(i);
            }
            i = i + 1;
        }
        None
    }

    /// A peer connected: it gets the next player number and the next network identifier,
    /// and is told its player number.
    pub fn on_connected(
        peer: String,
        player_ids: &mut PlayerIdCounter,
        network_ids: &mut NetworkIdCounter,
    ) -> (a: Arrival)
        requires
            old(player_ids).0.0.counter < u32::MAX,
            old(network_ids).0.0.counter < u32::MAX,
        ensures
            final(player_ids).0.0.counter == old(player_ids).0.0.counter + 1,
            final(network_ids).0.0.counter == old(network_ids).0.0.counter + 1,
            a.player.id == final(player_ids).0.0.counter,
            a.player.address == peer,
            a.network_id.0 == final(network_ids).0.0.counter,
            a.direction == Direction::Down,
            a.anim_state.0@ == seq!['i', 'd', 'l', 'e'],
            a.sprite == Sprite(SpriteType::Human),
            a.welcome.peer_ip matches PeerType::Ip(ip) && ip == peer,
            a.welcome.message.action == Action::SyncId,
            a.welcome.message.arg@ == decimal(a.player.id as nat),
    {
        let player_id = player_ids.0.0.next();
        let network_id = network_ids.0.0.next();
        let welcome = ServerOutputEvent {
            peer_ip: PeerType::Ip(peer.clone()),
            message: ActionMessage { action: Action::SyncId, arg: u32_to_decimal(player_id) },
        };
        proof {
            reveal_strlit("idle");
        }
        let idle = String::from_str("idle");
        assert(idle@ =~= seq!['i', 'd', 'l', 'e']);
        Arrival {
            player: Player { id: player_id, address: peer },
            network_id: NetworkId(network_id),
            direction: Direction::Down,
            anim_state: AnimState(idle),
            sprite: Sprite(SpriteType::Human),
            welcome,
        }
    }

    /// A peer disconnected: it is sent a disconnect message carrying its own address.
    pub fn on_disconnected(peer: &String) -> (e: ServerOutputEvent)
        ensures
            e == disconnect_notice(*peer),
    {
        ServerOutputEvent {
            peer_ip: PeerType::Ip(peer.clone()),
            message: ActionMessage { action: Action::Disconnect, arg: peer.clone() },
        }
    }
}

} // verus!
