use std::collections::HashMap;

use vstd::prelude::*;

use crate::common::events::clone_strings;
use crate::ecs::components::id::Player;
use crate::ecs::resources::world_manager::{
    chunk_key, coord_of_key, coord_spec, in_square, is_payload_of, key_of, lemma_coord_spec,
    map_keys, square_fits, ChunkPayload, WorldManager,
};
use crate::world::chunk::{Chunk, ChunkCoord};

verus! {

/// A player, with the chunk its position falls in.
#[derive(Debug, Clone)]
pub struct PlayerChunk {
    pub player: Player,
    pub chunk: ChunkCoord,
}

/// A loaded chunk to send, and the addresses of the players to send it to.
#[derive(Debug, Clone)]
pub struct ChunkSend {
    pub payload: ChunkPayload,
    pub addresses: Vec<String>,
}

/// What a tick of the chunk loader asks of the server: chunks to send, and whether to
/// unload the chunks far from every player.
#[derive(Debug, Clone)]
pub struct ChunkLoadOutcome {
    pub sends: Vec<ChunkSend>,
    pub unload: bool,
}

/// Loads the chunks around players who entered a new chunk, every tenth tick.
pub struct ChunkLoadSystem {
    /// The chunk each player was last seen in, by player number.
    pub player_chunks: HashMap<u32, ChunkCoord>,
    pub tick_counter: u32,
}

/// The recorded chunks after the first `n` players are recorded in their current chunks.
pub open spec fn chunks_after(
    recorded: Map<u32, ChunkCoord>,
    players: Seq<PlayerChunk>,
    n: nat,
) -> Map<u32, ChunkCoord>
    decreases n,
{
    if n == 0 {
        recorded
    } else {
        chunks_after(recorded, players, (n - 1) as nat).insert(
            players[n - 1].player.id,
            players[n - 1].chunk,
        )
    }
}

/// Whether player `i` is in another chunk than the one recorded for it when its turn comes.
pub open spec fn moved(recorded: Map<u32, ChunkCoord>, players: Seq<PlayerChunk>, i: int) -> bool {
    let pc = chunks_after(recorded, players, i as nat);
    !(pc.contains_key(players[i].player.id) && pc[players[i].player.id] == players[i].chunk)
}

/// The addresses, in player order, of the first `n` players that moved and have `c` within
/// `r` chunks of their own.
pub open spec fn recipients(
    recorded: Map<u32, ChunkCoord>,
    players: Seq<PlayerChunk>,
    r: int,
    n: nat,
    c: ChunkCoord,
) -> Seq<String>
    decreases n,
{
    if n == 0 {
        Seq::empty()
    } else {
        let before = recipients(recorded, players, r, (n - 1) as nat, c);
        if moved(recorded, players, n - 1) && in_square(players[n - 1].chunk, r, c) {
            before.push(players[n - 1].player.address)
        } else {
            before
        }
    }
}

/// The chunk a send is for.
pub open spec fn send_coord(s: ChunkSend) -> ChunkCoord {
    ChunkCoord { x: s.payload.chunk_x, y: s.payload.chunk_y }
}

/// Whether no two of `players` share a player number.
pub open spec fn distinct_ids(players: Seq<PlayerChunk>) -> bool {
    forall|i: int, j: int|
        0 <= i < players.len() && 0 <= j < players.len() && i != j ==> #[trigger] players[i].player.id
            != #[trigger] players[j].player.id
}

/// Whether `settled` records every one of `players` in its current chunk.
pub open spec fn records_all(settled: Map<u32, ChunkCoord>, players: Seq<PlayerChunk>) -> bool {
    forall|i: int|
        0 <= i < players.len() ==> #[trigger] settled.contains_key(players[i].player.id)
            && settled[players[i].player.id] == players[i].chunk
}

proof fn lemma_recorded(recorded: Map<u32, ChunkCoord>, players: Seq<PlayerChunk>, n: nat)
    requires
        n <= players.len(),
        distinct_ids(players),
    ensures
        forall|i: int|
            0 <= i < n ==> #[trigger] chunks_after(recorded, players, n).contains_key(
                players[i].player.id,
            ) && chunks_after(recorded, players, n)[players[i].player.id] == players[i].chunk,
    decreases n,
{
    if n > 0 {
        lemma_recorded(recorded, players, (n - 1) as nat);
        assert forall|i: int| 0 <= i < n implies #[trigger] chunks_after(
            recorded,
            players,
            n,
        ).contains_key(players[i].player.id) && chunks_after(recorded, players, n)[players[i].player.id]
            == players[i].chunk by {
            if i < n - 1 {
                assert(players[i].player.id != players[n - 1].player.id);
                assert(chunks_after(recorded, players, (n - 1) as nat).contains_key(
                    players[i].player.id,
                ));
            }
        }
    }
}

proof fn lemma_rerecord_is_noop(settled: Map<u32, ChunkCoord>, players: Seq<PlayerChunk>, n: nat)
    requires
        n <= players.len(),
        records_all(settled, players),
    ensures
        chunks_after(settled, players, n) == settled,
    decreases n,
{
    if n > 0 {
        lemma_rerecord_is_noop(settled, players, (n - 1) as nat);
        let p = players[n - 1];
        assert(settled.contains_key(players[n - 1].player.id));
        assert(settled.insert(p.player.id, p.chunk) =~= settled);
    }
}

proof fn lemma_nobody_moves(
    settled: Map<u32, ChunkCoord>,
    players: Seq<PlayerChunk>,
    r: int,
    n: nat,
    c: ChunkCoord,
)
    requires
        n <= players.len(),
        records_all(settled, players),
    ensures
        recipients(settled, players, r, n, c).len() == 0,
    decreases n,
{
    if n > 0 {
        lemma_nobody_moves(settled, players, r, (n - 1) as nat, c);
        lemma_rerecord_is_noop(settled, players, (n - 1) as nat);
        assert(settled.contains_key(players[n - 1].player.id));
        assert(!moved(settled, players, n - 1));
    }
}

/// Whether the square of radius `r` around `center` can be loaded: `r` can be negated and
/// every chunk of the square has valid coordinates.
pub open spec fn fits_around(center: ChunkCoord, r: i32) -> bool {
    r > i32::MIN && square_fits(center, r as int)
}

/// Whether every player that a due tick finds moved has a square that can be loaded.
pub open spec fn loads_fit_spec(
    recorded: Map<u32, ChunkCoord>,
    players: Seq<PlayerChunk>,
    r: i32,
) -> bool {
    forall|i: int|
        0 <= i < players.len() && #[trigger] moved(recorded, players, i) ==> fits_around(
            players[i].chunk,
            r,
        )
}

/// What a due tick does, from recorded chunks `pc0` and loaded chunks `w0` to `pc1` and
/// `w1`, sending `sends`: every player is recorded in its chunk; the chunks around the players
/// that moved are loaded, the others kept as they were; and each chunk so loaded is sent
/// once, with its tiles, to the addresses of the moved players around it.
pub open spec fn due_tick(
    pc0: Map<u32, ChunkCoord>,
    pc1: Map<u32, ChunkCoord>,
    w0: Map<ChunkCoord, Chunk>,
    w1: Map<ChunkCoord, Chunk>,
    players: Seq<PlayerChunk>,
    r: int,
    sends: Seq<ChunkSend>,
) -> bool {
    let n = players.len();
    &&& pc1 == chunks_after(pc0, players, n)
    &&& forall|c: ChunkCoord| #[trigger]
        w1.contains_key(c) <==> (w0.contains_key(c) || recipients(pc0, players, r, n, c).len() > 0)
    &&& forall|c: ChunkCoord| #[trigger] w0.contains_key(c) ==> w1[c] == w0[c]
    &&& forall|j: int|
        0 <= j < sends.len() ==> {
            let s = #[trigger] sends[j];
            &&& s.addresses@ == recipients(pc0, players, r, n, send_coord(s))
            &&& s.addresses@.len() > 0
            &&& is_payload_of(s.payload, send_coord(s), w1[send_coord(s)])
        }
    &&& forall|c: ChunkCoord|
        #![trigger recipients(pc0, players, r, n, c)]
        recipients(pc0, players, r, n, c).len() > 0 ==> exists|j: int|
            0 <= j < sends.len() && send_coord(#[trigger] sends[j]) == c
    &&& forall|a: int, b: int|
        0 <= a < b < sends.len() ==> send_coord(#[trigger] sends[a]) != send_coord(
            #[trigger] sends[b],
        )
}

proof fn lemma_recipient_included(
    pc0: Map<u32, ChunkCoord>,
    players: Seq<PlayerChunk>,
    r: int,
    n: nat,
    i: int,
    c: ChunkCoord,
)
    requires
        0 <= i < n <= players.len(),
        moved(pc0, players, i),
        in_square(players[i].chunk, r, c),
    ensures
        recipients(pc0, players, r, n, c).contains(players[i].player.address),
    decreases n,
{
    let prev = recipients(pc0, players, r, (n - 1) as nat, c);
    if i == n - 1 {
        assert(recipients(pc0, players, r, n, c) == prev.push(players[i].player.address));
        assert(prev.push(players[i].player.address)[prev.len() as int] == players[i].player.address);
    } else {
        lemma_recipient_included(pc0, players, r, (n - 1) as nat, i, c);
        let k = choose|k: int| 0 <= k < prev.len() && prev[k] == players[i].player.address;
        if moved(pc0, players, n - 1) && in_square(players[n - 1].chunk, r, c) {
            assert(prev.push(players[n - 1].player.address)[k] == players[i].player.address);
        }
    }
}

/// A player whose recorded chunk, when its turn comes on a due tick, is missing or differs
/// from its current chunk in any way (in `x`, in `y`, or both) counts as moved: every chunk
/// within the load radius of its current chunk, along both axes, is loaded and is sent to it.
pub proof fn lemma_moved_player_receives_square(
    pc0: Map<u32, ChunkCoord>,
    pc1: Map<u32, ChunkCoord>,
    w0: Map<ChunkCoord, Chunk>,
    w1: Map<ChunkCoord, Chunk>,
    players: Seq<PlayerChunk>,
    r: int,
    sends: Seq<ChunkSend>,
    i: int,
    c: ChunkCoord,
)
    requires
        due_tick(pc0, pc1, w0, w1, players, r, sends),
        0 <= i < players.len(),
        ({
            let before = chunks_after(pc0, players, i as nat);
            !before.contains_key(players[i].player.id) || before[players[i].player.id].x
                != players[i].chunk.x || before[players[i].player.id].y != players[i].chunk.y
        }),
        players[i].chunk.x - r <= c.x <= players[i].chunk.x + r,
        players[i].chunk.y - r <= c.y <= players[i].chunk.y + r,
    ensures
        w1.contains_key(c),
        exists|j: int|
            0 <= j < sends.len() && send_coord(#[trigger] sends[j]) == c
                && sends[j].addresses@.contains(players[i].player.address),
{
    let n = players.len();
    lemma_recipient_included(pc0, players, r, n, i, c);
    assert(recipients(pc0, players, r, n, c).len() > 0);
    let j = choose|j: int| 0 <= j < sends.len() && send_coord(#[trigger] sends[j]) == c;
    assert(sends[j].addresses@ == recipients(pc0, players, r, n, send_coord(sends[j])));
}

/// Players with distinct numbers who stay in their chunks: once a due tick has recorded
/// them, the next due tick finds that nobody moved, so it loads nothing, records nothing new
/// and sends nothing.
pub proof fn lemma_settled_players_get_nothing(
    pc0: Map<u32, ChunkCoord>,
    pc1: Map<u32, ChunkCoord>,
    pc2: Map<u32, ChunkCoord>,
    w0: Map<ChunkCoord, Chunk>,
    w1: Map<ChunkCoord, Chunk>,
    w2: Map<ChunkCoord, Chunk>,
    players: Seq<PlayerChunk>,
    r: int,
    first: Seq<ChunkSend>,
    second: Seq<ChunkSend>,
)
    requires
        distinct_ids(players),
        due_tick(pc0, pc1, w0, w1, players, r, first),
        due_tick(pc1, pc2, w1, w2, players, r, second),
    ensures
        second.len() == 0,
        pc2 == pc1,
        w2 == w1,
{
    lemma_recorded(pc0, players, players.len());
    assert forall|c: ChunkCoord| #[trigger]
        recipients(pc1, players, r, players.len(), c).len() == 0 by {
        lemma_nobody_moves(pc1, players, r, players.len(), c);
    }
    lemma_rerecord_is_noop(pc1, players, players.len());
    if second.len() > 0 {
        let s = second[0];
        assert(s.addresses@ == recipients(pc1, players, r, players.len(), send_coord(s)));
    }
    assert(w2 =~= w1);
}

proof fn lemma_take_push_contains(s: Seq<ChunkCoord>, q: int, c: ChunkCoord)
    requires
        0 <= q < s.len(),
    ensures
        s.take(q + 1).contains(c) <==> (s.take(q).contains(c) || s[q] == c),
{
    assert(s.take(q + 1) =~= s.take(q).push(s[q]));
    if s.take(q + 1).contains(c) {
        let n = choose|n: int| 0 <= n < q + 1 && #[trigger] s.take(q + 1)[n] == c;
        if n < q {
            assert(s.take(q)[n] == c);
        }
    }
    if s.take(q).contains(c) {
        let n = choose|n: int| 0 <= n < q && #[trigger] s.take(q)[n] == c;
        assert(s.take(q + 1)[n] == c);
    }
    if s[q] == c {
        assert(s.take(q + 1)[q] == c);
    }
}

impl Default for ChunkLoadSystem {
    fn default() -> (s: Self)
        ensures
            s.player_chunks@ == Map::<u32, ChunkCoord>::empty(),
            s.tick_counter == 0,
    {
        Self::new()
    }
}

fn fits_around_exec(center: ChunkCoord, r: i32) -> (b: bool)
    ensures
        b == fits_around(center, r),
{
    if r == i32::MIN {
        return false;
    }
    if r < 0 {
        return true;
    }
    let r64 = r as i64;
    center.x as i64 - r64 >= i32::MIN as i64 && center.x as i64 + r64 <= i32::MAX as i64
        && center.y as i64 - r64 >= i32::MIN as i64 && center.y as i64 + r64 <= i32::MAX as i64
}

impl ChunkLoadSystem {
    /// Whether a due tick with `players` could load the square around every player it finds
    /// moved, with squares of radius `load_radius`.
    pub fn loads_fit(&self, players: &Vec<PlayerChunk>, load_radius: i32) -> (b: bool)
        ensures
            b == loads_fit_spec(self.player_chunks@, players@, load_radius),
    {
        let ghost pc0 = self.player_chunks@;
        let mut recorded = self.player_chunks.clone();
        let mut i: usize = 0;
        while i < players.len()
            invariant
                0 <= i <= players@.len(),
                pc0 == self.player_chunks@,
                recorded@ == chunks_after(pc0, players@, i as nat),
                forall|j: int|
                    0 <= j < i && #[trigger] moved(pc0, players@, j) ==> fits_around(
                        players@[j].chunk,
                        load_radius,
                    ),
            decreases players@.len() - i,
        {
            let p = &players[i];
            let has_moved = match recorded.get(&p.player.id) {
                Some(c) => *c != p.chunk,
                None => true,
            };
            assert(has_moved == moved(pc0, players@, i as int));
            if has_moved && !fits_around_exec(p.chunk, load_radius) {
                assert(moved(pc0, players@, i as int) && !fits_around(
                    players@[i as int].chunk,
                    load_radius,
                ));
                assert(!loads_fit_spec(pc0, players@, load_radius));
                return false;
            }
            recorded.insert(p.player.id, p.chunk);
            i = i + 1;
        }
        true
    }

    pub fn new() -> (s: Self)
        ensures
            s.player_chunks@ == Map::<u32, ChunkCoord>::empty(),
            s.tick_counter == 0,
    {
        Self { player_chunks: HashMap::new(), tick_counter: 0 }
    }

    /// One tick. On every tenth tick, each player found in another chunk than the one
    /// recorded for it has the chunks around it loaded and is recorded in its chunk; each
    /// chunk so loaded is sent once, to the addresses of all those players around it.
    /// Every hundredth tick also asks for the distant chunks to be unloaded.
    pub fn run<G: Fn(ChunkCoord) -> Chunk>(
        &mut self,
        players: &Vec<PlayerChunk>,
        world: &mut WorldManager,
        generate: &G,
    ) -> (out: ChunkLoadOutcome)
        requires
            old(self).tick_counter < u32::MAX,
            (old(self).tick_counter + 1) % 10 == 0 ==> loads_fit_spec(
                old(self).player_chunks@,
                players@,
                old(world).load_radius,
            ),
            forall|c: ChunkCoord| generate.requires((c,)),
        ensures
            final(self).tick_counter == old(self).tick_counter + 1,
            out.unload == (final(self).tick_counter % 100 == 0),
            final(world).load_radius == old(world).load_radius,
            final(world).dirty_chunks == old(world).dirty_chunks,
            final(self).tick_counter % 10 != 0 ==> {
                &&& final(self).player_chunks@ == old(self).player_chunks@
                &&& final(world).chunk_map() == old(world).chunk_map()
                &&& out.sends@.len() == 0
            },
            final(self).tick_counter % 10 == 0 ==> due_tick(
                old(self).player_chunks@,
                final(self).player_chunks@,
                old(world).chunk_map(),
                final(world).chunk_map(),
                players@,
                old(world).load_radius as int,
                out.sends@,
            ),
            final(self).tick_counter % 10 == 0 ==> forall|c: ChunkCoord|
                #![trigger final(world).chunk_map()[c]]
                final(world).chunk_map().contains_key(c) && !old(world).chunk_map().contains_key(c)
                    ==> call_ensures(generate, (c,), final(world).chunk_map()[c]),
    {
        self.tick_counter += 1;
        if self.tick_counter % 10 != 0 {
            return ChunkLoadOutcome { sends: Vec::new(), unload: false };
        }
        let ghost pc0 = self.player_chunks@;
        let ghost w0 = world.chunk_map();
        let ghost r = world.load_radius as int;
        let mut to_send: HashMap<u64, Vec<String>> = HashMap::new();
        let mut i: usize = 0;
        while i < players.len()
            invariant
                0 <= i <= players@.len(),
                self.tick_counter == old(self).tick_counter + 1,
                self.player_chunks@ == chunks_after(pc0, players@, i as nat),
                world.load_radius == r,
                world.dirty_chunks == old(world).dirty_chunks,
                loads_fit_spec(pc0, players@, world.load_radius),
                forall|c: ChunkCoord| generate.requires((c,)),
                forall|c: ChunkCoord| #[trigger]
                    world.chunk_map().contains_key(c) <==> (w0.contains_key(c) || recipients(
                        pc0,
                        players@,
                        r,
                        i as nat,
                        c,
                    ).len() > 0),
                forall|c: ChunkCoord| #[trigger]
                    w0.contains_key(c) ==> world.chunk_map()[c] == w0[c],
                forall|c: ChunkCoord|
                    #![trigger world.chunk_map()[c]]
                    world.chunk_map().contains_key(c) && !w0.contains_key(c) ==> call_ensures(
                        generate,
                        (c,),
                        world.chunk_map()[c],
                    ),
                forall|k: u64| #[trigger]
                    to_send@.contains_key(k) <==> recipients(
                        pc0,
                        players@,
                        r,
                        i as nat,
                        coord_spec(k),
                    ).len() > 0,
                forall|k: u64| #[trigger]
                    to_send@.contains_key(k) ==> to_send@[k]@ == recipients(
                        pc0,
                        players@,
                        r,
                        i as nat,
                        coord_spec(k),
                    ),
            decreases players@.len() - i,
        {
            let pcn = &players[i];
            let id = pcn.player.id;
            let has_moved = match self.player_chunks.get(&id) {
                Some(c) => *c != pcn.chunk,
                None => true,
            };
            assert(has_moved == moved(pc0, players@, i as int));
            assert(has_moved ==> fits_around(players@[i as int].chunk, world.load_radius));
            if has_moved {
                let loaded = world.load_chunks_around(pcn.chunk, generate);
                let ghost ts_i = to_send@;
                let mut q: usize = 0;
                while q < loaded.len()
                    invariant
                        0 <= q <= loaded@.len(),
                        i < players@.len(),
                        *pcn == players@[i as int],
                        loaded@.no_duplicates(),
                        forall|k: u64| #[trigger]
                            ts_i.contains_key(k) <==> recipients(
                                pc0,
                                players@,
                                r,
                                i as nat,
                                coord_spec(k),
                            ).len() > 0,
                        forall|k: u64| #[trigger]
                            ts_i.contains_key(k) ==> ts_i[k]@ == recipients(
                                pc0,
                                players@,
                                r,
                                i as nat,
                                coord_spec(k),
                            ),
                        forall|k: u64| #[trigger]
                            to_send@.contains_key(k) <==> (ts_i.contains_key(k) || loaded@.take(
                                q as int,
                            ).contains(coord_spec(k))),
                        forall|k: u64| #[trigger]
                            to_send@.contains_key(k) ==> to_send@[k]@ == if loaded@.take(
                                q as int,
                            ).contains(coord_spec(k)) {
                                recipients(pc0, players@, r, i as nat, coord_spec(k)).push(
                                    pcn.player.address,
                                )
                            } else {
                                recipients(pc0, players@, r, i as nat, coord_spec(k))
                            },
                    decreases loaded@.len() - q,
                {
                    let coord = loaded[q];
                    let key = key_of(coord);
                    proof {
                        lemma_coord_spec(coord);
                        assert forall|c: ChunkCoord|
                            loaded@.take(q + 1).contains(c) <==> (loaded@.take(q as int).contains(c)
                                || loaded@[q as int] == c) by {
                            lemma_take_push_contains(loaded@, q as int, c);
                        }
                        assert(!loaded@.take(q as int).contains(coord)) by {
                            if loaded@.take(q as int).contains(coord) {
                                let n = choose|n: int|
                                    0 <= n < q && #[trigger] loaded@.take(q as int)[n] == coord;
                                assert(loaded@[n] == loaded@[q as int]);
                            }
                        }
                    }
                    let addresses = match to_send.remove(&key) {
                        Some(v) => {
                            let mut v = v;
                            v.push(pcn.player.address.clone());
                            v
                        },
                        None => {
                            let mut v: Vec<String> = Vec::new();
                            v.push(pcn.player.address.clone());
                            v
                        },
                    };
                    proof {
                        if !ts_i.contains_key(key) {
                            assert(addresses@ =~= Seq::<String>::empty().push(pcn.player.address));
                        }
                    }
                    to_send.insert(key, addresses);
                    proof {
                        assert forall|k: u64| #[trigger]
                            to_send@.contains_key(k) <==> (ts_i.contains_key(k) || loaded@.take(
                                q + 1,
                            ).contains(coord_spec(k))) by {
                            if k == key {
                                assert(coord_spec(k) == coord);
                            } else {
                                lemma_coord_spec(coord_spec(k));
                            }
                        }
                        assert forall|k: u64| #[trigger]
                            to_send@.contains_key(k) implies to_send@[k]@ == if loaded@.take(
                                q + 1,
                            ).contains(coord_spec(k)) {
                                recipients(pc0, players@, r, i as nat, coord_spec(k)).push(
                                    pcn.player.address,
                                )
                            } else {
                                recipients(pc0, players@, r, i as nat, coord_spec(k))
                            } by {
                            if k == key {
                                assert(coord_spec(k) == coord);
                            } else {
                                lemma_coord_spec(coord_spec(k));
                                assert(coord_spec(k) != coord);
                            }
                        }
                    }
                    q = q + 1;
                }
                assert(loaded@.take(loaded@.len() as int) =~= loaded@);
                self.player_chunks.insert(id, pcn.chunk);
            } else {
                assert(self.player_chunks@.insert(id, pcn.chunk) =~= self.player_chunks@);
            }
            proof {
                assert forall|c: ChunkCoord|
                    #![trigger recipients(pc0, players@, r, (i + 1) as nat, c)]
                    recipients(pc0, players@, r, (i + 1) as nat, c) == if has_moved && in_square(
                        pcn.chunk,
                        r,
                        c,
                    ) {
                        recipients(pc0, players@, r, i as nat, c).push(pcn.player.address)
                    } else {
                        recipients(pc0, players@, r, i as nat, c)
                    } by {}
            }
            i = i + 1;
        }
        let keys = map_keys(&to_send);
        let ghost n = players@.len();
        let mut sends: Vec<ChunkSend> = Vec::new();
        let mut q: usize = 0;
        while q < keys.len()
            invariant
                0 <= q <= keys@.len(),
                n == players@.len(),
                keys@.to_set() == to_send@.dom(),
                forall|k: u64| #[trigger]
                    to_send@.contains_key(k) <==> recipients(
                        pc0,
                        players@,
                        r,
                        n,
                        coord_spec(k),
                    ).len() > 0,
                forall|k: u64| #[trigger]
                    to_send@.contains_key(k) ==> to_send@[k]@ == recipients(
                        pc0,
                        players@,
                        r,
                        n,
                        coord_spec(k),
                    ),
                forall|c: ChunkCoord| #[trigger]
                    world.chunk_map().contains_key(c) <==> (w0.contains_key(c) || recipients(
                        pc0,
                        players@,
                        r,
                        n,
                        c,
                    ).len() > 0),
                sends@.len() == q,
                forall|j: int|
                    0 <= j < q ==> {
                        let s = #[trigger] sends@[j];
                        &&& chunk_key(send_coord(s)) == keys@[j]
                        &&& s.addresses@ == recipients(pc0, players@, r, n, send_coord(s))
                        &&& is_payload_of(
                            s.payload,
                            send_coord(s),
                            world.chunk_map()[send_coord(s)],
                        )
                    },
            decreases keys@.len() - q,
        {
            let key = keys[q];
            let coord = coord_of_key(key);
            proof {
                lemma_coord_spec(coord);
                assert(keys@.contains(key)) by {
                    assert(keys@[q as int] == key);
                }
                assert(to_send@.dom().contains(key));
                assert(world.chunk_map().contains_key(coord));
            }
            match world.serialize_chunk(coord) {
                Some(payload) => {
                    match to_send.get(&key) {
                        Some(addresses) => {
                            let send = ChunkSend { payload, addresses: clone_strings(addresses) };
                            assert(send_coord(send) == coord);
                            sends.push(send);
                            assert(sends@[q as int] == send);
                        },
                        None => {
                            assert(false);
                        },
                    }
                },
                None => {
                    assert(false);
                },
            }
            q = q + 1;
        }
        proof {
            assert forall|j: int|
                0 <= j < sends@.len() implies (#[trigger] sends@[j]).addresses@.len() > 0 by {
                lemma_coord_spec(send_coord(sends@[j]));
                assert(keys@.to_set().contains(keys@[j]));
            }
            assert forall|a: int, b: int|
                0 <= a < b < sends@.len() implies send_coord(#[trigger] sends@[a]) != send_coord(
                #[trigger] sends@[b],
            ) by {
                assert(keys@[a] != keys@[b]);
            }
            assert forall|c: ChunkCoord|
                #![trigger recipients(pc0, players@, r, n, c)]
                recipients(pc0, players@, r, n, c).len() > 0 implies exists|j: int|
                0 <= j < sends@.len() && send_coord(#[trigger] sends@[j]) == c by {
                lemma_coord_spec(c);
                let k = chunk_key(c);
                assert(to_send@.contains_key(k));
                assert(keys@.to_set().contains(k));
                let m = choose|m: int| 0 <= m < keys@.len() && keys@[m] == k;
                crate::ecs::resources::world_manager::lemma_chunk_key_injective(
                    send_coord(sends@[m]),
                    c,
                );
                assert(send_coord(sends@[m]) == c);
            }
        }
        assert(due_tick(pc0, self.player_chunks@, w0, world.chunk_map(), players@, r, sends@));
        let unload = self.tick_counter % 100 == 0;
        ChunkLoadOutcome { sends, unload }
    }
}

} // verus!
