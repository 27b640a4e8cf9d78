use vstd::prelude::*;

use super::tile::TileType;

verus! {

/// Side length of a square chunk, in tiles.
pub const CHUNK_SIZE: usize = 32;

/// The position of a chunk in the grid of chunks.
#[derive(Debug, Clone, Copy, PartialEq, Eq, Hash, Structural)]
pub struct ChunkCoord {
    pub x: i32,
    pub y: i32,
}

impl ChunkCoord {
    pub fn new(x: i32, y: i32) -> (c: Self)
        ensures
            c.x == x,
            c.y == y,
    {
        Self { x, y }
    }
}

/// A square block of tiles, stored row by row (`tiles[y][x]`).
#[derive(Debug, Clone)]
pub struct Chunk {
    pub coord: ChunkCoord,
    pub tiles: [[TileType; CHUNK_SIZE]; CHUNK_SIZE],
    pub dirty: bool,
}

/// Whether a tile index pair lies inside a chunk.
pub open spec fn in_chunk(x: int, y: int) -> bool {
    0 <= x < CHUNK_SIZE && 0 <= y < CHUNK_SIZE
}

impl Chunk {
    /// Whether `self` is `before` after writing `t` at column `x`, row `y`:
    /// that tile replaced, every other tile and the coordinate kept, the chunk marked dirty.
    pub open spec fn wrote(self, before: Chunk, x: int, y: int, t: TileType) -> bool {
        &&& self.coord == before.coord
        &&& self.dirty
        &&& forall|i: int, j: int|
            in_chunk(i, j) ==> #[trigger] self.tile(i, j) == if i == x && j == y {
                t
            } else {
                before.tile(i, j)
            }
    }

    /// The tile at column `x` and row `y`.
    pub open spec fn tile(self, x: int, y: int) -> TileType {
        self.tiles@[y]@[x]
    }

    /// What `get_tile` answers: the stored tile inside the chunk, grass outside.
    pub open spec fn tile_or_grass(self, x: int, y: int) -> TileType {
        if in_chunk(x, y) {
            self.tile(x, y)
        } else {
            TileType::Grass
        }
    }

    pub fn new(coord: ChunkCoord, tiles: [[TileType; CHUNK_SIZE]; CHUNK_SIZE]) -> (c: Self)
        ensures
            c.coord == coord,
            c.tiles == tiles,
            !c.dirty,
    {
        Self { coord, tiles, dirty: false }
    }

    pub fn get_tile(&self, x: usize, y: usize) -> (t: TileType)
        ensures
            t == self.tile_or_grass(x as int, y as int),
    {
        if x < CHUNK_SIZE && y < CHUNK_SIZE {
            self.tiles[y][x]
        } else {
            TileType::Grass
        }
    }

    pub fn set_tile(&mut self, x: usize, y: usize, tile_type: TileType)
        ensures
            in_chunk(x as int, y as int) ==> final(self).wrote(
                *old(self),
                x as int,
                y as int,
                tile_type,
            ),
            !in_chunk(x as int, y as int) ==> *final(self) == *old(self),
    {
        if x < CHUNK_SIZE && y < CHUNK_SIZE {
            self.tiles[y][x] = tile_type;
            self.dirty = true;
        }
    }
}

impl Chunk {
    /// The tile identifiers of the chunk, row by row: `ids[y][x]` is the id of `tiles[y][x]`.
    pub fn tiles_as_ids(&self) -> (ids: Vec<Vec<u8>>)
        ensures
            ids@.len() == CHUNK_SIZE,
            forall|y: int| 0 <= y < CHUNK_SIZE ==> #[trigger] ids@[y]@.len() == CHUNK_SIZE,
            forall|x: int, y: int|
                in_chunk(x, y) ==> #[trigger] ids@[y]@[x] == self.tile(x, y).id(),
    {
        let mut ids: Vec<Vec<u8>> = Vec::new();
        let mut y: usize = 0;
        while y < CHUNK_SIZE
            invariant
                y <= CHUNK_SIZE,
                ids@.len() == y,
                forall|j: int| 0 <= j < y ==> #[trigger] ids@[j]@.len() == CHUNK_SIZE,
                forall|i: int, j: int|
                    0 <= i < CHUNK_SIZE && 0 <= j < y ==> #[trigger] ids@[j]@[i] == self.tile(
                        i,
                        j,
                    ).id(),
            decreases CHUNK_SIZE - y,
        {
            let row = self.tiles[y];
            let mut row_ids: Vec<u8> = Vec::new();
            let mut x: usize = 0;
            while x < CHUNK_SIZE
                invariant
                    x <= CHUNK_SIZE,
                    y < CHUNK_SIZE,
                    row == self.tiles@[y as int],
                    row_ids@.len() == x,
                    forall|i: int| 0 <= i < x ==> #[trigger] row_ids@[i] == self.tile(i, y as int).id(),
                decreases CHUNK_SIZE - x,
            {
                row_ids.push(row[x].to_id());
                x = x + 1;
            }
            ids.push(row_ids);
            y = y + 1;
        }
        ids
    }
}

/// Reading a tile inside the chunk gives back what was last written there,
/// and a write leaves every other tile as it was.
pub proof fn lemma_get_after_set(
    before: Chunk,
    after: Chunk,
    x: int,
    y: int,
    t: TileType,
    i: int,
    j: int,
)
    requires
        in_chunk(x, y),
        after.wrote(before, x, y, t),
    ensures
        after.tile_or_grass(x, y) == t,
        (i != x || j != y) ==> after.tile_or_grass(i, j) == before.tile_or_grass(i, j),
{
    if in_chunk(i, j) {
        assert(after.tile(i, j) == if i == x && j == y { t } else { before.tile(i, j) });
    }
    assert(after.tile(x, y) == t);
}

} // verus!
