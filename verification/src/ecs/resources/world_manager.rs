use std::collections::HashMap;

use vstd::prelude::*;

use crate::world::chunk::{in_chunk, Chunk, ChunkCoord, CHUNK_SIZE};
use crate::world::tile::TileType;

verus! {

/// Offset that moves an `i32` into the range of a `u32`.
const COORD_OFFSET: i64 = 2147483648;

/// Number of distinct `i32` values: the radix of a chunk's map key.
const KEY_RADIX: u64 = 4294967296;

/// The map key of a chunk: its shifted `x` in the high half, its shifted `y` in the low half.
pub open spec fn chunk_key(c: ChunkCoord) -> u64 {
    ((c.x + 2147483648) * 4294967296 + (c.y + 2147483648)) as u64
}

/// Distinct coordinates have distinct keys.
pub proof fn lemma_chunk_key_injective(a: ChunkCoord, b: ChunkCoord)
    ensures
        chunk_key(a) == chunk_key(b) <==> a == b,
{
    let ka = (a.x + 2147483648) * 4294967296 + (a.y + 2147483648);
    let kb = (b.x + 2147483648) * 4294967296 + (b.y + 2147483648);
    assert(0 <= ka < 0x1_0000_0000_0000_0000);
    assert(0 <= kb < 0x1_0000_0000_0000_0000);
    if ka == kb {
        assert(a.x == b.x);
        assert(a.y == b.y);
    }
}

/// The map key of a chunk coordinate.
pub fn key_of(c: ChunkCoord) -> (k: u64)
    ensures
        k == chunk_key(c),
{
    let hi: u64 = (c.x as i64 + COORD_OFFSET) as u64;
    let lo: u64 = (c.y as i64 + COORD_OFFSET) as u64;
    hi * KEY_RADIX + lo
}

/// The coordinate whose key is `k`.
pub open spec fn coord_spec(k: u64) -> ChunkCoord {
    ChunkCoord {
        x: (k / 4294967296 - 2147483648) as i32,
        y: (k % 4294967296 - 2147483648) as i32,
    }
}

/// Decoding a coordinate's key gives back that coordinate.
pub proof fn lemma_coord_spec(c: ChunkCoord)
    ensures
        coord_spec(chunk_key(c)) == c,
{
    let k = chunk_key(c);
    assert(k == (c.x + 2147483648) * 4294967296 + (c.y + 2147483648));
    assert(k / 4294967296 == c.x + 2147483648);
    assert(k % 4294967296 == c.y + 2147483648);
}

/// The chunk coordinate of a map key.
pub fn coord_of_key(k: u64) -> (c: ChunkCoord)
    ensures
        chunk_key(c) == k,
        c == coord_spec(k),
{
    let hi: i64 = (k / KEY_RADIX) as i64;
    let lo: i64 = (k % KEY_RADIX) as i64;
    ChunkCoord::new((hi - COORD_OFFSET) as i32, (lo - COORD_OFFSET) as i32)
}

/// The keys of an integer-keyed map, each once, in the map's own order.
pub fn map_keys<V>(m: &HashMap<u64, V>) -> (keys: Vec<u64>)
    ensures
        keys@.to_set() == m@.dom(),
        keys@.no_duplicates(),
{
    let ghost all = vstd::std_specs::iter::IteratorSpec::remaining(
        &vstd::std_specs::hash::spec_keys_iter(m),
    ).unref();
    let mut keys: Vec<u64> = Vec::new();
    for k in it: m.keys()
        invariant
            it.seq().unref() == all,
            keys@ == all.take(it.index()),
    {
        keys.push(*k);
        assert(keys@ =~= all.take(it.index() + 1));
    }
    assert(keys@ =~= all);
    keys
}

/// Whether `p` carries the tiles of `chunk`, as the chunk at `coord`.
pub open spec fn is_payload_of(p: ChunkPayload, coord: ChunkCoord, chunk: Chunk) -> bool {
    &&& p.chunk_x == coord.x
    &&& p.chunk_y == coord.y
    &&& p.tiles@.len() == CHUNK_SIZE
    &&& forall|y: int| 0 <= y < CHUNK_SIZE ==> #[trigger] p.tiles@[y]@.len() == CHUNK_SIZE
    &&& forall|x: int, y: int| in_chunk(x, y) ==> #[trigger] p.tiles@[y]@[x] == chunk.tile(x, y).id()
}

/// The chunks a world manager has loaded, with the radius it loads around players.
pub struct WorldManager {
    /// Loaded chunks, keyed by `chunk_key` of their coordinate.
    pub chunks: HashMap<u64, Chunk>,
    pub load_radius: i32,
    pub dirty_chunks: Vec<ChunkCoord>,
}

/// A chunk's tiles as sent to clients.
#[derive(Debug, Clone)]
pub struct ChunkPayload {
    pub chunk_x: i32,
    pub chunk_y: i32,
    pub tiles: Vec<Vec<u8>>,
}

/// Whether `c` lies within `r` chunks of `center` along both axes.
pub open spec fn in_square(center: ChunkCoord, r: int, c: ChunkCoord) -> bool {
    &&& center.x - r <= c.x <= center.x + r
    &&& center.y - r <= c.y <= center.y + r
}

/// Whether `after` is `before` with every chunk within `r` of `center` loaded: the chunks
/// already there are kept as they were, and no other chunk appears.
pub open spec fn loads_square(
    before: Map<ChunkCoord, Chunk>,
    after: Map<ChunkCoord, Chunk>,
    center: ChunkCoord,
    r: int,
) -> bool {
    &&& forall|c: ChunkCoord| #[trigger]
        after.contains_key(c) <==> (before.contains_key(c) || (r >= 0 && in_square(center, r, c)))
    &&& forall|c: ChunkCoord| #[trigger] before.contains_key(c) ==> after[c] == before[c]
}

/// Loading the same square twice in a row: the second load changes nothing.
pub proof fn lemma_reload_changes_nothing(
    m0: Map<ChunkCoord, Chunk>,
    m1: Map<ChunkCoord, Chunk>,
    m2: Map<ChunkCoord, Chunk>,
    center: ChunkCoord,
    r: int,
)
    requires
        loads_square(m0, m1, center, r),
        loads_square(m1, m2, center, r),
    ensures
        m2 == m1,
{
    assert(m2 =~= m1);
}

/// The chunk `dx` columns and `dy` rows away from `center`.
pub open spec fn offset(center: ChunkCoord, dx: int, dy: int) -> ChunkCoord {
    ChunkCoord { x: (center.x + dx) as i32, y: (center.y + dy) as i32 }
}

/// A load of the square of radius `r >= 0` reaches exactly `r` chunks out along both axes:
/// the four corners and the four edge midpoints at distance `r` are loaded, and no chunk one
/// step further out is added.
pub proof fn lemma_square_reaches_radius(
    before: Map<ChunkCoord, Chunk>,
    after: Map<ChunkCoord, Chunk>,
    center: ChunkCoord,
    r: int,
    outside: ChunkCoord,
)
    requires
        loads_square(before, after, center, r),
        r >= 0,
        square_fits(center, r),
        outside.x == center.x + r + 1 || outside.x == center.x - r - 1 || outside.y == center.y
            + r + 1 || outside.y == center.y - r - 1,
    ensures
        after.contains_key(offset(center, r, r)),
        after.contains_key(offset(center, r, -r)),
        after.contains_key(offset(center, -r, r)),
        after.contains_key(offset(center, -r, -r)),
        after.contains_key(offset(center, r, 0)),
        after.contains_key(offset(center, -r, 0)),
        after.contains_key(offset(center, 0, r)),
        after.contains_key(offset(center, 0, -r)),
        after.contains_key(outside) ==> before.contains_key(outside),
{
    assert(after.contains_key(offset(center, r, r)));
    assert(after.contains_key(offset(center, r, -r)));
    assert(after.contains_key(offset(center, -r, r)));
    assert(after.contains_key(offset(center, -r, -r)));
    assert(after.contains_key(offset(center, r, 0)));
    assert(after.contains_key(offset(center, -r, 0)));
    assert(after.contains_key(offset(center, 0, r)));
    assert(after.contains_key(offset(center, 0, -r)));
}

/// Whether every coordinate within `r` of `center` is a valid `i32` pair.
pub open spec fn square_fits(center: ChunkCoord, r: int) -> bool {
    r >= 0 ==> {
        &&& i32::MIN <= center.x - r
        &&& center.x + r <= i32::MAX
        &&& i32::MIN <= center.y - r
        &&& center.y + r <= i32::MAX
    }
}

/// Number of chunks along a side of the square of radius `r`.
pub open spec fn side(r: int) -> int {
    if r >= 0 {
        2 * r + 1
    } else {
        0
    }
}

/// Position, in row-by-row order, of column `i` of row `j` in a square of side `n`.
pub open spec fn square_index(n: int, i: int, j: int) -> int {
    j * n + i
}

/// The chunk at column `i`, row `j` of the square of radius `r` around `center`.
pub open spec fn square_coord(center: ChunkCoord, r: int, i: int, j: int) -> ChunkCoord {
    ChunkCoord { x: (center.x - r + i) as i32, y: (center.y - r + j) as i32 }
}

/// The chunks of the square visited before column `i` of row `j`, rows first.
spec fn visited_before(center: ChunkCoord, r: int, i: int, j: int, c: ChunkCoord) -> bool {
    let x0 = center.x - r;
    let y0 = center.y - r;
    ||| (y0 <= c.y < y0 + j && x0 <= c.x < x0 + side(r))
    ||| (c.y == y0 + j && x0 <= c.x < x0 + i)
}

proof fn lemma_row_block(n: int, i: int, j: int, jj: int)
    by (nonlinear_arith)
    requires
        0 < n,
        0 <= jj < j,
        0 <= i,
    ensures
        square_index(n, n - 1, jj) < square_index(n, i, j),
        0 <= square_index(n, i, jj),
{
}

proof fn lemma_row_end(n: int, j: int)
    by (nonlinear_arith)
    ensures
        square_index(n, 0, j + 1) == square_index(n, n, j),
{
}

impl WorldManager {
    /// The loaded chunks, by coordinate.
    pub open spec fn chunk_map(self) -> Map<ChunkCoord, Chunk> {
        Map::new(
            |c: ChunkCoord| self.chunks@.contains_key(chunk_key(c)),
            |c: ChunkCoord| self.chunks@[chunk_key(c)],
        )
    }

    pub fn new(load_radius: i32) -> (w: Self)
        ensures
            w.chunk_map() == Map::<ChunkCoord, Chunk>::empty(),
            w.load_radius == load_radius,
            w.dirty_chunks@ == Seq::<ChunkCoord>::empty(),
    {
        let w = Self { chunks: HashMap::new(), load_radius, dirty_chunks: Vec::new() };
        assert(w.chunk_map() =~= Map::<ChunkCoord, Chunk>::empty());
        w
    }

    pub fn get_chunk(&self, coord: ChunkCoord) -> (chunk: Option<&Chunk>)
        ensures
            match chunk {
                Some(c) => self.chunk_map().contains_key(coord) && *c == self.chunk_map()[coord],
                None => !self.chunk_map().contains_key(coord),
            },
    {
        let key = key_of(coord);
        self.chunks.get(&key)
    }

    proof fn lemma_insert(self, after: Self, coord: ChunkCoord, chunk: Chunk)
        requires
            after.chunks@ == self.chunks@.insert(chunk_key(coord), chunk),
        ensures
            after.chunk_map() == self.chunk_map().insert(coord, chunk),
    {
        assert forall|c: ChunkCoord| #![auto] chunk_key(c) == chunk_key(coord) ==> c == coord by {
            lemma_chunk_key_injective(c, coord);
        }
        assert(after.chunk_map() =~= self.chunk_map().insert(coord, chunk));
    }

    proof fn lemma_remove(self, after: Self, coord: ChunkCoord)
        requires
            after.chunks@ == self.chunks@.remove(chunk_key(coord)),
        ensures
            after.chunk_map() == self.chunk_map().remove(coord),
    {
        assert forall|c: ChunkCoord| #![auto] chunk_key(c) == chunk_key(coord) ==> c == coord by {
            lemma_chunk_key_injective(c, coord);
        }
        assert(after.chunk_map() =~= self.chunk_map().remove(coord));
    }

    /// The chunk at `coord`, generated with `generate` and stored first if it was not loaded.
    pub fn get_or_generate_chunk<G: Fn(ChunkCoord) -> Chunk>(
        &mut self,
        coord: ChunkCoord,
        generate: &G,
    ) -> (chunk: &Chunk)
        requires
            forall|c: ChunkCoord| generate.requires((c,)),
        ensures
            final(self).chunk_map().contains_key(coord),
            *chunk == final(self).chunk_map()[coord],
            old(self).chunk_map().contains_key(coord) ==> final(self).chunk_map() == old(
                self,
            ).chunk_map(),
            !old(self).chunk_map().contains_key(coord) ==> {
                &&& final(self).chunk_map() == old(self).chunk_map().insert(
                    coord,
                    final(self).chunk_map()[coord],
                )
                &&& call_ensures(generate, (coord,), final(self).chunk_map()[coord])
            },
            final(self).load_radius == old(self).load_radius,
            final(self).dirty_chunks == old(self).dirty_chunks,
    {
        let key = key_of(coord);
        if !self.chunks.contains_key(&key) {
            let chunk = generate(coord);
            let ghost before = *self;
            self.chunks.insert(key, chunk);
            proof {
                before.lemma_insert(*self, coord, chunk);
            }
        }
        self.chunks.get(&key).unwrap()
    }

    /// Loads every chunk within `load_radius` of `center` along both axes, generating the
    /// missing ones, and returns the coordinates of that square row by row.
    pub fn load_chunks_around<G: Fn(ChunkCoord) -> Chunk>(
        &mut self,
        center: ChunkCoord,
        generate: &G,
    ) -> (loaded: Vec<ChunkCoord>)
        requires
            old(self).load_radius > i32::MIN,
            square_fits(center, old(self).load_radius as int),
            forall|c: ChunkCoord| generate.requires((c,)),
        ensures
            ({
                let r = old(self).load_radius as int;
                let n = side(r);
                &&& loaded@.len() == n * n
                &&& loaded@.no_duplicates()
                &&& forall|i: int, j: int|
                    0 <= i < n && 0 <= j < n ==> #[trigger] loaded@[square_index(n, i, j)]
                        == square_coord(center, r, i, j)
                &&& forall|c: ChunkCoord|
                    loaded@.contains(c) <==> (r >= 0 && #[trigger] in_square(center, r, c))
                &&& loads_square(old(self).chunk_map(), final(self).chunk_map(), center, r)
            }),
            old(self).load_radius >= 0 ==> loaded@.len() == (2 * old(self).load_radius + 1) * (2
                * old(self).load_radius + 1),
            old(self).load_radius < 0 ==> loaded@.len() == 0,
            forall|c: ChunkCoord|
                #![trigger loaded@.contains(c)]
                #![trigger final(self).chunk_map().contains_key(c)]
                center.x - old(self).load_radius <= c.x <= center.x + old(self).load_radius
                    && center.y - old(self).load_radius <= c.y <= center.y + old(self).load_radius
                    ==> loaded@.contains(c) && final(self).chunk_map().contains_key(c),
            forall|c: ChunkCoord|
                loaded@.contains(c) ==> center.x - old(self).load_radius <= c.x <= center.x + old(
                    self,
                ).load_radius && center.y - old(self).load_radius <= c.y <= center.y + old(
                    self,
                ).load_radius,
            forall|c: ChunkCoord|
                #![trigger final(self).chunk_map()[c]]
                final(self).chunk_map().contains_key(c) && !old(self).chunk_map().contains_key(c)
                    ==> call_ensures(generate, (c,), final(self).chunk_map()[c]),
            final(self).load_radius == old(self).load_radius,
            final(self).dirty_chunks == old(self).dirty_chunks,
    {
        let r = self.load_radius;
        let neg_r = -r;
        let mut loaded: Vec<ChunkCoord> = Vec::new();
        if neg_r > r {
            assert(loaded@.len() == side(r as int) * side(r as int));
            return loaded;
        }
        let ghost old_map = self.chunk_map();
        let ghost ri = r as int;
        let n: i64 = 2 * (r as i64) + 1;
        let x0: i64 = center.x as i64 - r as i64;
        let y0: i64 = center.y as i64 - r as i64;
        let mut j: i64 = 0;
        while j < n
            invariant
                r == self.load_radius,
                ri == r as int,
                r >= 0,
                n == side(ri),
                x0 == center.x - ri,
                y0 == center.y - ri,
                square_fits(center, ri),
                0 <= j <= n,
                loaded@.len() == square_index(n as int, 0, j as int),
                loaded@.no_duplicates(),
                forall|ii: int, jj: int|
                    0 <= ii < n && 0 <= jj < j ==> #[trigger] loaded@[square_index(
                        n as int,
                        ii,
                        jj,
                    )] == square_coord(center, ri, ii, jj),
                forall|c: ChunkCoord|
                    loaded@.contains(c) <==> #[trigger] visited_before(center, ri, 0, j as int, c),
                forall|c: ChunkCoord| #[trigger]
                    self.chunk_map().contains_key(c) <==> (old_map.contains_key(c)
                        || visited_before(center, ri, 0, j as int, c)),
                forall|c: ChunkCoord| #[trigger]
                    old_map.contains_key(c) ==> self.chunk_map()[c] == old_map[c],
                forall|c: ChunkCoord|
                    #![trigger self.chunk_map()[c]]
                    self.chunk_map().contains_key(c) && !old_map.contains_key(c) ==> call_ensures(
                        generate,
                        (c,),
                        self.chunk_map()[c],
                    ),
                forall|c: ChunkCoord| generate.requires((c,)),
                self.dirty_chunks == old(self).dirty_chunks,
            decreases n - j,
        {
            let mut i: i64 = 0;
            while i < n
                invariant
                    r == self.load_radius,
                    ri == r as int,
                    r >= 0,
                    n == side(ri),
                    x0 == center.x - ri,
                    y0 == center.y - ri,
                    square_fits(center, ri),
                    0 <= j < n,
                    0 <= i <= n,
                    loaded@.len() == square_index(n as int, i as int, j as int),
                    loaded@.no_duplicates(),
                    forall|ii: int, jj: int|
                        0 <= ii < n && 0 <= jj < j ==> #[trigger] loaded@[square_index(
                            n as int,
                            ii,
                            jj,
                        )] == square_coord(center, ri, ii, jj),
                    forall|ii: int|
                        0 <= ii < i ==> #[trigger] loaded@[square_index(n as int, ii, j as int)]
                            == square_coord(center, ri, ii, j as int),
                    forall|c: ChunkCoord|
                        loaded@.contains(c) <==> #[trigger] visited_before(
                            center,
                            ri,
                            i as int,
                            j as int,
                            c,
                        ),
                    forall|c: ChunkCoord| #[trigger]
                        self.chunk_map().contains_key(c) <==> (old_map.contains_key(c)
                            || visited_before(center, ri, i as int, j as int, c)),
                    forall|c: ChunkCoord| #[trigger]
                        old_map.contains_key(c) ==> self.chunk_map()[c] == old_map[c],
                    forall|c: ChunkCoord|
                        #![trigger self.chunk_map()[c]]
                        self.chunk_map().contains_key(c) && !old_map.contains_key(c)
                            ==> call_ensures(generate, (c,), self.chunk_map()[c]),
                    forall|c: ChunkCoord| generate.requires((c,)),
                    self.dirty_chunks == old(self).dirty_chunks,
                decreases n - i,
            {
                let coord = ChunkCoord::new((x0 + i) as i32, (y0 + j) as i32);
                let key = key_of(coord);
                if !self.chunks.contains_key(&key) {
                    self.get_or_generate_chunk(coord, generate);
                }
                let ghost prev = loaded@;
                loaded.push(coord);
                proof {
                    assert(coord.x == x0 + i && coord.y == y0 + j);
                    assert(loaded@ == prev.push(coord));
                    assert(!visited_before(center, ri, i as int, j as int, coord));
                    assert(!prev.contains(coord));
                    assert forall|a: int, b: int|
                        0 <= a < loaded@.len() && 0 <= b < loaded@.len() && a != b implies loaded@[a]
                        != loaded@[b] by {
                        if a < prev.len() && b < prev.len() {
                            assert(prev[a] != prev[b]);
                        } else if a < prev.len() {
                            assert(prev.contains(prev[a]));
                        } else if b < prev.len() {
                            assert(prev.contains(prev[b]));
                        }
                    }
                    assert forall|c: ChunkCoord|
                        visited_before(center, ri, i + 1, j as int, c) <==> (#[trigger] visited_before(
                            center,
                            ri,
                            i as int,
                            j as int,
                            c,
                        ) || c == coord) by {}
                    assert forall|ii: int, jj: int|
                        0 <= ii < n && 0 <= jj < j implies #[trigger] loaded@[square_index(
                            n as int,
                            ii,
                            jj,
                        )] == square_coord(center, ri, ii, jj) by {
                        lemma_row_block(n as int, i as int, j as int, jj);
                        assert(square_index(n as int, ii, jj) <= square_index(n as int, n - 1, jj))
                            by (nonlinear_arith)
                            requires
                                ii <= n - 1,
                        ;
                        assert(prev[square_index(n as int, ii, jj)] == square_coord(
                            center,
                            ri,
                            ii,
                            jj,
                        ));
                    }
                    assert forall|c: ChunkCoord|
                        loaded@.contains(c) <==> #[trigger] visited_before(
                            center,
                            ri,
                            i + 1,
                            j as int,
                            c,
                        ) by {
                        assert(prev.contains(c) <==> visited_before(
                            center,
                            ri,
                            i as int,
                            j as int,
                            c,
                        ));
                        if c == coord {
                            assert(loaded@[prev.len() as int] == c);
                        }
                        if loaded@.contains(c) && c != coord {
                            let k = choose|k: int| 0 <= k < loaded@.len() && loaded@[k] == c;
                            assert(prev[k] == c);
                        }
                        if prev.contains(c) {
                            let k = choose|k: int| 0 <= k < prev.len() && prev[k] == c;
                            assert(loaded@[k] == c);
                        }
                    }
                }
                i = i + 1;
            }
            proof {
                lemma_row_end(n as int, j as int);
                assert forall|c: ChunkCoord|
                    visited_before(center, ri, n as int, j as int, c) <==> #[trigger] visited_before(
                        center,
                        ri,
                        0,
                        j + 1,
                        c,
                    ) by {}
            }
            j = j + 1;
        }
        proof {
            assert forall|c: ChunkCoord|
                visited_before(center, ri, 0, n as int, c) <==> #[trigger] in_square(
                    center,
                    ri,
                    c,
                ) by {}
            assert forall|c: ChunkCoord|
                center.x - ri <= c.x <= center.x + ri && center.y - ri <= c.y <= center.y + ri
                    implies #[trigger] loaded@.contains(c) && self.chunk_map().contains_key(c) by {
                assert(in_square(center, ri, c));
                assert(visited_before(center, ri, 0, n as int, c));
            }
            assert forall|c: ChunkCoord| #[trigger]
                loaded@.contains(c) implies center.x - ri <= c.x <= center.x + ri && center.y - ri
                    <= c.y <= center.y + ri by {
                assert(visited_before(center, ri, 0, n as int, c));
            }
        }
        loaded
    }

    /// With no active player, nothing is unloaded. Otherwise drops every loaded chunk for which
    /// `is_distant` answers `true` (far from every active player); the others stay as they were.
    pub fn unload_distant_chunks<F: Fn(ChunkCoord) -> bool>(
        &mut self,
        active_count: usize,
        is_distant: &F,
    )
        requires
            active_count > 0 ==> forall|c: ChunkCoord| is_distant.requires((c,)),
        ensures
            active_count == 0 ==> *final(self) == *old(self),
            active_count > 0 ==> forall|c: ChunkCoord| #[trigger]
                final(self).chunk_map().contains_key(c) ==> {
                    &&& old(self).chunk_map().contains_key(c)
                    &&& final(self).chunk_map()[c] == old(self).chunk_map()[c]
                    &&& call_ensures(is_distant, (c,), false)
                },
            active_count > 0 ==> forall|c: ChunkCoord| #[trigger]
                old(self).chunk_map().contains_key(c) && !final(self).chunk_map().contains_key(c)
                    ==> call_ensures(is_distant, (c,), true),
            final(self).load_radius == old(self).load_radius,
            final(self).dirty_chunks == old(self).dirty_chunks,
    {
        if active_count == 0 {
            return;
        }
        self.drop_distant_chunks(is_distant);
    }

    /// Drops every loaded chunk for which `is_distant` answers `true`; the others stay as they were.
    fn drop_distant_chunks<F: Fn(ChunkCoord) -> bool>(&mut self, is_distant: &F)
        requires
            forall|c: ChunkCoord| is_distant.requires((c,)),
        ensures
            forall|c: ChunkCoord| #[trigger]
                final(self).chunk_map().contains_key(c) ==> {
                    &&& old(self).chunk_map().contains_key(c)
                    &&& final(self).chunk_map()[c] == old(self).chunk_map()[c]
                    &&& call_ensures(is_distant, (c,), false)
                },
            forall|c: ChunkCoord| #[trigger]
                old(self).chunk_map().contains_key(c) && !final(self).chunk_map().contains_key(c)
                    ==> call_ensures(is_distant, (c,), true),
            final(self).load_radius == old(self).load_radius,
            final(self).dirty_chunks == old(self).dirty_chunks,
    {
        let keys = map_keys(&self.chunks);
        let mut to_remove: Vec<u64> = Vec::new();
        let mut i: usize = 0;
        while i < keys.len()
            invariant
                0 <= i <= keys@.len(),
                keys@.to_set() == self.chunks@.dom(),
                forall|c: ChunkCoord| is_distant.requires((c,)),
                forall|k: u64|
                    #![trigger to_remove@.contains(k)]
                    to_remove@.contains(k) ==> keys@.take(i as int).contains(k)
                        && call_ensures(is_distant, (coord_spec(k),), true),
                forall|idx: int|
                    #![trigger keys@[idx]]
                    0 <= idx < i && !to_remove@.contains(keys@[idx]) ==> call_ensures(
                        is_distant,
                        (coord_spec(keys@[idx]),),
                        false,
                    ),
            decreases keys@.len() - i,
        {
            let key = keys[i];
            let coord = coord_of_key(key);
            proof {
                lemma_coord_spec(coord);
            }
            let distant = is_distant(coord);
            let ghost prev = to_remove@;
            if distant {
                to_remove.push(key);
            }
            proof {
                assert forall|k: u64| #[trigger] to_remove@.contains(k) implies keys@.take(
                    i + 1,
                ).contains(k) && call_ensures(is_distant, (coord_spec(k),), true) by {
                    if prev.contains(k) {
                        let n = choose|n: int| 0 <= n < i && keys@.take(i as int)[n] == k;
                        assert(keys@.take(i + 1)[n] == k);
                    } else {
                        assert(to_remove@[to_remove@.len() - 1] == k) by {
                            let n = choose|n: int| 0 <= n < to_remove@.len() && to_remove@[n] == k;
                            assert(n == to_remove@.len() - 1);
                        }
                        assert(keys@.take(i + 1)[i as int] == k);
                    }
                }
                assert forall|idx: int|
                    #![trigger keys@[idx]]
                    0 <= idx < i + 1 && !to_remove@.contains(keys@[idx]) implies call_ensures(
                    is_distant,
                    (coord_spec(keys@[idx]),),
                    false,
                ) by {
                    if idx < i {
                        if prev.contains(keys@[idx]) {
                            let n = choose|n: int| 0 <= n < prev.len() && prev[n] == keys@[idx];
                            assert(to_remove@[n] == keys@[idx]);
                        }
                    } else if distant {
                        assert(to_remove@[to_remove@.len() - 1] == keys@[idx]);
                    }
                }
            }
            i = i + 1;
        }
        assert(keys@.take(keys@.len() as int) =~= keys@);
        let ghost before = self.chunks@;
        let mut j: usize = 0;
        while j < to_remove.len()
            invariant
                0 <= j <= to_remove@.len(),
                forall|k: u64| #[trigger]
                    self.chunks@.contains_key(k) <==> (before.contains_key(k) && !(exists|n: int|
                        0 <= n < j && #[trigger] to_remove@[n] == k)),
                forall|k: u64| #[trigger]
                    self.chunks@.contains_key(k) ==> self.chunks@[k] == before[k],
                self.load_radius == old(self).load_radius,
                self.dirty_chunks == old(self).dirty_chunks,
            decreases to_remove@.len() - j,
        {
            let key = to_remove[j];
            self.chunks.remove(&key);
            j = j + 1;
        }
        proof {
            assert forall|c: ChunkCoord| #[trigger]
                self.chunk_map().contains_key(c) implies call_ensures(is_distant, (c,), false) by {
                let k = chunk_key(c);
                lemma_coord_spec(c);
                assert(keys@.to_set().contains(k));
                let idx = choose|idx: int| 0 <= idx < keys@.len() && keys@[idx] == k;
            }
            assert forall|c: ChunkCoord| #[trigger]
                old(self).chunk_map().contains_key(c) && !self.chunk_map().contains_key(c)
                    implies call_ensures(is_distant, (c,), true) by {
                lemma_coord_spec(c);
                assert(to_remove@.contains(chunk_key(c)));
            }
        }
    }

    /// The tile identifiers of the chunk at `coord`, if it is loaded.
    pub fn serialize_chunk(&self, coord: ChunkCoord) -> (payload: Option<ChunkPayload>)
        ensures
            payload is Some <==> self.chunk_map().contains_key(coord),
            payload matches Some(p) ==> is_payload_of(p, coord, self.chunk_map()[coord]),
    {
        let chunk = match self.get_chunk(coord) {
            Some(c) => c,
            None => return None,
        };
        let tiles = chunk.tiles_as_ids();
        Some(ChunkPayload { chunk_x: coord.x, chunk_y: coord.y, tiles })
    }

    /// The tile at column `tx`, row `ty` of the chunk at `coord`, if that chunk is loaded.
    pub fn get_tile_at(&self, coord: ChunkCoord, tx: usize, ty: usize) -> (t: Option<TileType>)
        ensures
            t is Some <==> self.chunk_map().contains_key(coord),
            t matches Some(t) ==> t == self.chunk_map()[coord].tile_or_grass(tx as int, ty as int),
    {
        match self.get_chunk(coord) {
            Some(chunk) => Some(chunk.get_tile(tx, ty)),
            None => None,
        }
    }
}

} // verus!
