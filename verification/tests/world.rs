use server::ecs::resources::world_manager::{coord_of_key, key_of, map_keys, WorldManager};
use server::world::chunk::{Chunk, ChunkCoord, CHUNK_SIZE};
use server::world::tile::TileType;

fn flat(coord: ChunkCoord, tile: TileType) -> Chunk {
    Chunk::new(coord, [[tile; CHUNK_SIZE]; CHUNK_SIZE])
}

#[test]
fn tile_ids_follow_declaration_order() {
    let all = [
        TileType::Grass,
        TileType::Dirt,
        TileType::Sand,
        TileType::Water,
        TileType::Stone,
        TileType::DeepWater,
        TileType::Snow,
    ];
    for (i, t) in all.iter().enumerate() {
        assert_eq!(t.to_id() as usize, i);
    }
}

#[test]
fn new_chunk_is_clean() {
    let c = flat(ChunkCoord::new(3, -4), TileType::Sand);
    assert_eq!(c.coord, ChunkCoord::new(3, -4));
    assert!(!c.dirty);
    assert_eq!(c.get_tile(0, 0), TileType::Sand);
    assert_eq!(c.get_tile(31, 31), TileType::Sand);
}

#[test]
fn get_tile_outside_is_grass() {
    let c = flat(ChunkCoord::new(0, 0), TileType::Water);
    assert_eq!(c.get_tile(32, 0), TileType::Grass);
    assert_eq!(c.get_tile(0, 32), TileType::Grass);
    assert_eq!(c.get_tile(usize::MAX, 5), TileType::Grass);
}

#[test]
fn set_then_get_tile() {
    let mut c = flat(ChunkCoord::new(0, 0), TileType::Grass);
    c.set_tile(5, 7, TileType::Snow);
    assert!(c.dirty);
    assert_eq!(c.get_tile(5, 7), TileType::Snow);
    assert_eq!(c.get_tile(7, 5), TileType::Grass);
    assert_eq!(c.tiles[7][5], TileType::Snow);
}

#[test]
fn set_tile_outside_changes_nothing() {
    let mut c = flat(ChunkCoord::new(0, 0), TileType::Grass);
    c.set_tile(32, 1, TileType::Stone);
    c.set_tile(1, 40, TileType::Stone);
    assert!(!c.dirty);
    for y in 0..CHUNK_SIZE {
        for x in 0..CHUNK_SIZE {
            assert_eq!(c.get_tile(x, y), TileType::Grass);
        }
    }
}

#[test]
fn tiles_as_ids_is_row_major() {
    let mut c = flat(ChunkCoord::new(0, 0), TileType::Dirt);
    c.set_tile(2, 1, TileType::DeepWater);
    let ids = c.tiles_as_ids();
    assert_eq!(ids.len(), CHUNK_SIZE);
    for row in &ids {
        assert_eq!(row.len(), CHUNK_SIZE);
    }
    assert_eq!(ids[1][2], 5);
    assert_eq!(ids[2][1], 1);
    assert_eq!(ids[0][0], 1);
}

#[test]
fn world_manager_starts_empty() {
    let w = WorldManager::new(2);
    assert_eq!(w.load_radius, 2);
    assert!(w.dirty_chunks.is_empty());
    assert!(w.get_chunk(ChunkCoord::new(0, 0)).is_none());
    assert!(w.serialize_chunk(ChunkCoord::new(0, 0)).is_none());
    assert!(w.get_tile_at(ChunkCoord::new(0, 0), 0, 0).is_none());
}

#[test]
fn get_or_generate_generates_once() {
    let mut w = WorldManager::new(1);
    let coord = ChunkCoord::new(-2, 9);
    let first = w.get_or_generate_chunk(coord, &|c: ChunkCoord| flat(c, TileType::Stone)).clone();
    assert_eq!(first.coord, coord);
    assert_eq!(first.get_tile(0, 0), TileType::Stone);
    let again = w.get_or_generate_chunk(coord, &|c: ChunkCoord| flat(c, TileType::Snow)).clone();
    assert_eq!(again.get_tile(0, 0), TileType::Stone);
    assert_eq!(w.chunks.len(), 1);
}

#[test]
fn load_chunks_around_covers_square_in_rows() {
    let mut w = WorldManager::new(1);
    let loaded = w.load_chunks_around(ChunkCoord::new(10, -5), &|c: ChunkCoord| flat(c, TileType::Grass));
    let expected: Vec<ChunkCoord> = vec![
        ChunkCoord::new(9, -6),
        ChunkCoord::new(10, -6),
        ChunkCoord::new(11, -6),
        ChunkCoord::new(9, -5),
        ChunkCoord::new(10, -5),
        ChunkCoord::new(11, -5),
        ChunkCoord::new(9, -4),
        ChunkCoord::new(10, -4),
        ChunkCoord::new(11, -4),
    ];
    assert_eq!(loaded, expected);
    for c in &expected {
        assert!(w.get_chunk(*c).is_some());
    }
    assert_eq!(w.chunks.len(), 9);
    assert!(w.get_chunk(ChunkCoord::new(12, -5)).is_none());
}

#[test]
fn load_chunks_around_keeps_existing() {
    let mut w = WorldManager::new(1);
    w.get_or_generate_chunk(ChunkCoord::new(0, 0), &|c: ChunkCoord| flat(c, TileType::Snow));
    w.load_chunks_around(ChunkCoord::new(0, 0), &|c: ChunkCoord| flat(c, TileType::Water));
    assert_eq!(w.get_tile_at(ChunkCoord::new(0, 0), 3, 3), Some(TileType::Snow));
    assert_eq!(w.get_tile_at(ChunkCoord::new(1, 1), 3, 3), Some(TileType::Water));
    assert_eq!(w.chunks.len(), 9);
}

#[test]
fn reload_changes_nothing() {
    let mut w = WorldManager::new(2);
    let first = w.load_chunks_around(ChunkCoord::new(4, 4), &|c: ChunkCoord| flat(c, TileType::Sand));
    let count = w.chunks.len();
    let second = w.load_chunks_around(ChunkCoord::new(4, 4), &|c: ChunkCoord| flat(c, TileType::Snow));
    assert_eq!(first, second);
    assert_eq!(w.chunks.len(), count);
    assert_eq!(count, 25);
    assert_eq!(w.get_tile_at(ChunkCoord::new(2, 2), 0, 0), Some(TileType::Sand));
}

#[test]
fn load_radius_zero_loads_center_only() {
    let mut w = WorldManager::new(0);
    let loaded = w.load_chunks_around(ChunkCoord::new(i32::MAX, i32::MIN), &|c: ChunkCoord| flat(c, TileType::Grass));
    assert_eq!(loaded, vec![ChunkCoord::new(i32::MAX, i32::MIN)]);
    assert!(w.get_chunk(ChunkCoord::new(i32::MAX, i32::MIN)).is_some());
}

#[test]
fn negative_radius_loads_nothing() {
    let mut w = WorldManager::new(-3);
    let loaded = w.load_chunks_around(ChunkCoord::new(0, 0), &|c: ChunkCoord| flat(c, TileType::Grass));
    assert!(loaded.is_empty());
    assert!(w.chunks.is_empty());
}

#[test]
fn unload_drops_only_distant() {
    let mut w = WorldManager::new(1);
    w.load_chunks_around(ChunkCoord::new(0, 0), &|c: ChunkCoord| flat(c, TileType::Grass));
    w.unload_distant_chunks(1, &|c: ChunkCoord| c.x > 0);
    assert_eq!(w.chunks.len(), 6);
    assert!(w.get_chunk(ChunkCoord::new(1, 0)).is_none());
    assert!(w.get_chunk(ChunkCoord::new(0, 1)).is_some());
    assert!(w.get_chunk(ChunkCoord::new(-1, -1)).is_some());
}

#[test]
fn serialize_chunk_carries_ids() {
    let mut w = WorldManager::new(0);
    w.get_or_generate_chunk(ChunkCoord::new(7, -1), &|c: ChunkCoord| {
        let mut ch = flat(c, TileType::Grass);
        ch.set_tile(31, 0, TileType::Snow);
        ch
    });
    let p = w.serialize_chunk(ChunkCoord::new(7, -1)).unwrap();
    assert_eq!(p.chunk_x, 7);
    assert_eq!(p.chunk_y, -1);
    assert_eq!(p.tiles.len(), 32);
    assert_eq!(p.tiles[0][31], 6);
    assert_eq!(p.tiles[0][30], 0);
}

#[test]
fn get_tile_at_reads_loaded_chunk() {
    let mut w = WorldManager::new(0);
    w.get_or_generate_chunk(ChunkCoord::new(0, 0), &|c: ChunkCoord| flat(c, TileType::Dirt));
    assert_eq!(w.get_tile_at(ChunkCoord::new(0, 0), 0, 0), Some(TileType::Dirt));
    assert_eq!(w.get_tile_at(ChunkCoord::new(0, 0), 99, 0), Some(TileType::Grass));
    assert_eq!(w.get_tile_at(ChunkCoord::new(0, 1), 0, 0), None);
}

#[test]
fn extreme_coordinates_have_distinct_keys() {
    let mut w = WorldManager::new(0);
    let corners = [
        ChunkCoord::new(i32::MIN, i32::MIN),
        ChunkCoord::new(i32::MIN, i32::MAX),
        ChunkCoord::new(i32::MAX, i32::MIN),
        ChunkCoord::new(i32::MAX, i32::MAX),
        ChunkCoord::new(0, 0),
        ChunkCoord::new(-1, 0),
        ChunkCoord::new(0, -1),
    ];
    for (i, c) in corners.iter().enumerate() {
        let tile = if i % 2 == 0 { TileType::Snow } else { TileType::Water };
        w.get_or_generate_chunk(*c, &move |cc: ChunkCoord| flat(cc, tile));
    }
    assert_eq!(w.chunks.len(), corners.len());
    for (i, c) in corners.iter().enumerate() {
        let expect = if i % 2 == 0 { TileType::Snow } else { TileType::Water };
        assert_eq!(w.get_chunk(*c).unwrap().coord, *c);
        assert_eq!(w.get_tile_at(*c, 0, 0), Some(expect));
    }
    w.unload_distant_chunks(2, &|c: ChunkCoord| c.x == i32::MIN);
    assert_eq!(w.chunks.len(), corners.len() - 2);
}

#[test]
fn chunk_keys_decode_back() {
    let coords = [
        ChunkCoord::new(0, 0),
        ChunkCoord::new(-1, 1),
        ChunkCoord::new(i32::MIN, i32::MAX),
        ChunkCoord::new(i32::MAX, i32::MIN),
        ChunkCoord::new(123456, -654321),
    ];
    let mut keys = std::collections::HashSet::new();
    for c in &coords {
        assert_eq!(coord_of_key(key_of(*c)), *c);
        keys.insert(key_of(*c));
    }
    assert_eq!(keys.len(), coords.len());
    assert_eq!(key_of(ChunkCoord::new(i32::MIN, i32::MIN)), 0);
    assert_eq!(key_of(ChunkCoord::new(i32::MAX, i32::MAX)), u64::MAX);

    let mut w = WorldManager::new(1);
    w.load_chunks_around(ChunkCoord::new(0, 0), &|c: ChunkCoord| flat(c, TileType::Grass));
    let mut listed = map_keys(&w.chunks);
    listed.sort();
    let mut expected: Vec<u64> = w.chunks.keys().cloned().collect();
    expected.sort();
    assert_eq!(listed, expected);
}

#[test]
fn unload_without_active_players_keeps_everything() {
    let mut w = WorldManager::new(1);
    w.load_chunks_around(ChunkCoord::new(0, 0), &|c: ChunkCoord| flat(c, TileType::Grass));
    w.unload_distant_chunks(0, &|_c: ChunkCoord| true);
    assert_eq!(w.chunks.len(), 9);
    w.unload_distant_chunks(1, &|_c: ChunkCoord| true);
    assert!(w.chunks.is_empty());
}

#[test]
fn noise_seeds_follow_world_seed() {
    assert_eq!(server::world::generator::noise_seeds(7), (7, 8, 9));
    assert_eq!(server::world::generator::noise_seeds(u32::MAX as u64), (u32::MAX, 0, 1));
    assert_eq!(server::world::generator::noise_seeds(u64::MAX - 2), (u32::MAX - 2, u32::MAX - 1, u32::MAX));
}
