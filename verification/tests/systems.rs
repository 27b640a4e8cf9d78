use server::common::events::{Action, PeerType};
use server::ecs::components::id::{NetworkId, Player};
use server::ecs::components::sprite::{Sprite, SpriteType};
use server::ecs::components::transform::{AnimState, Direction};
use server::ecs::resources::counters::{Counter, NetworkIdCounter, PlayerIdCounter};
use server::ecs::resources::world_manager::WorldManager;
use server::ecs::systems::chunk_load_system::{ChunkLoadSystem, PlayerChunk};
use server::ecs::systems::direction_system::{DirectionSystem, VelocitySigns};
use server::ecs::systems::input_system::{
    parse_move_args, InputMessage, InputSystem, MoveCommand, MoveIntent,
};
use server::world::chunk::{Chunk, ChunkCoord, CHUNK_SIZE};
use server::world::tile::TileType;

fn input(kind: &str, actor: &str, args: &str) -> InputMessage {
    InputMessage { input_type: kind.to_string(), actor_id: actor.to_string(), args: args.to_string() }
}

fn toward(dx: i64, dy: i64) -> MoveIntent {
    MoveIntent::Toward { dx, dy }
}

#[test]
fn counter_counts_from_one() {
    let mut c = Counter::new();
    assert_eq!(c.next(), 1);
    assert_eq!(c.next(), 2);
    assert_eq!(c.counter, 2);
    let d = Counter::default();
    assert_eq!(d.counter, 0);
}

#[test]
fn direction_names() {
    assert_eq!(Direction::Down.as_str(), "down");
    assert_eq!(Direction::Left.as_str(), "left");
    assert_eq!(Direction::Right.as_str(), "right");
    assert_eq!(Direction::Up.as_str(), "up");
    assert_eq!(Direction::default(), Direction::Down);
}

#[test]
fn sprite_name() {
    assert_eq!(SpriteType::Human.to_string(), "human");
    assert_eq!(Sprite(SpriteType::Human).0, SpriteType::Human);
}

#[test]
fn move_args_stop() {
    assert_eq!(parse_move_args(&"stop".to_string()), MoveIntent::Stop);
}

#[test]
fn move_args_single_codes() {
    assert_eq!(parse_move_args(&"0".to_string()), toward(0, -1));
    assert_eq!(parse_move_args(&"1".to_string()), toward(-1, 0));
    assert_eq!(parse_move_args(&"2".to_string()), toward(0, 1));
    assert_eq!(parse_move_args(&"3".to_string()), toward(1, 0));
}

#[test]
fn move_args_combined_and_trimmed() {
    assert_eq!(parse_move_args(&"0,3".to_string()), toward(1, -1));
    assert_eq!(parse_move_args(&" 1 ,\t2 ".to_string()), toward(-1, 1));
    assert_eq!(parse_move_args(&"0,2".to_string()), toward(0, 0));
    assert_eq!(parse_move_args(&"3,3,3".to_string()), toward(3, 0));
}

#[test]
fn move_args_unknown_pieces_ignored() {
    assert_eq!(parse_move_args(&"".to_string()), toward(0, 0));
    assert_eq!(parse_move_args(&"9,x,,00".to_string()), toward(0, 0));
    assert_eq!(parse_move_args(&"Stop".to_string()), toward(0, 0));
    assert_eq!(parse_move_args(&" stop".to_string()), toward(0, 0));
    assert_eq!(parse_move_args(&"0 1".to_string()), toward(0, 0));
    assert_eq!(parse_move_args(&",3,".to_string()), toward(1, 0));
}

#[test]
fn interpret_move_input() {
    assert_eq!(
        InputSystem::interpret(&input("Move", "12", "0")),
        Some(MoveCommand { actor_id: 12, intent: toward(0, -1) })
    );
    assert_eq!(
        InputSystem::interpret(&input("Move", "+3", "stop")),
        Some(MoveCommand { actor_id: 3, intent: MoveIntent::Stop })
    );
}

#[test]
fn interpret_refuses_other_inputs() {
    assert_eq!(InputSystem::interpret(&input("move", "1", "0")), None);
    assert_eq!(InputSystem::interpret(&input("Chat", "1", "0")), None);
    assert_eq!(InputSystem::interpret(&input("Move", "x", "0")), None);
    assert_eq!(InputSystem::interpret(&input("Move", "-1", "0")), None);
    assert_eq!(InputSystem::interpret(&input("Move", "", "0")), None);
}

#[test]
fn player_matching() {
    let p = Player { id: 4, address: "1.1.1.1:1".to_string() };
    assert!(p.is_actor(4, &"1.1.1.1:1".to_string()));
    assert!(!p.is_actor(5, &"1.1.1.1:1".to_string()));
    assert!(!p.is_actor(4, &"1.1.1.1:2".to_string()));
    assert!(p.is_from(&"1.1.1.1:1".to_string()));
    assert_eq!(NetworkId(3).0, 3);
}

#[test]
fn connection_gets_next_numbers_and_welcome() {
    let mut players = PlayerIdCounter::default();
    let mut networks = NetworkIdCounter::default();
    let a = InputSystem::on_connected("10.0.0.1:1".to_string(), &mut players, &mut networks);
    assert_eq!(a.player.id, 1);
    assert_eq!(a.network_id, NetworkId(1));
    assert_eq!(a.player.address, "10.0.0.1:1");
    assert!(matches!(a.welcome.peer_ip, PeerType::Ip(ref ip) if ip == "10.0.0.1:1"));
    assert_eq!(a.welcome.message.action, Action::SyncId);
    assert_eq!(a.welcome.message.to_string(), "11");
    assert_eq!(a.direction, Direction::Down);
    assert_eq!(a.anim_state.0, "idle");
    assert_eq!(a.sprite, Sprite(SpriteType::Human));
    let b = InputSystem::on_connected("10.0.0.2:1".to_string(), &mut players, &mut networks);
    assert_eq!(b.player.id, 2);
    assert_eq!(b.network_id, NetworkId(2));
    assert_eq!(b.welcome.message.arg, "2");
}

#[test]
fn disconnection_notice() {
    let e = InputSystem::on_disconnected(&"10.0.0.9:80".to_string());
    assert!(matches!(e.peer_ip, PeerType::Ip(ref ip) if ip == "10.0.0.9:80"));
    assert_eq!(e.message.action, Action::Disconnect);
    assert_eq!(e.message.to_string(), "210.0.0.9:80");
}

fn signs(moving: bool, vertical: bool, up: bool, left: bool) -> VelocitySigns {
    VelocitySigns { moving, vertical, up, left }
}

#[test]
fn direction_follows_dominant_axis() {
    let mut dir = Direction::Down;
    let mut anim = AnimState("idle".to_string());
    DirectionSystem::apply(signs(true, true, true, false), &mut dir, &mut anim);
    assert_eq!(dir, Direction::Up);
    assert_eq!(anim.0, "walk");
    DirectionSystem::apply(signs(true, false, true, true), &mut dir, &mut anim);
    assert_eq!(dir, Direction::Left);
    DirectionSystem::apply(signs(true, false, false, false), &mut dir, &mut anim);
    assert_eq!(dir, Direction::Right);
    DirectionSystem::apply(signs(true, true, false, true), &mut dir, &mut anim);
    assert_eq!(dir, Direction::Down);
}

#[test]
fn resting_keeps_direction() {
    let mut dir = Direction::Left;
    let mut anim = AnimState("walk".to_string());
    DirectionSystem::apply(signs(false, true, false, false), &mut dir, &mut anim);
    assert_eq!(dir, Direction::Left);
    assert_eq!(anim.0, "idle");
}

fn grass(c: ChunkCoord) -> Chunk {
    Chunk::new(c, [[TileType::Grass; CHUNK_SIZE]; CHUNK_SIZE])
}

fn pc(id: u32, address: &str, x: i32, y: i32) -> PlayerChunk {
    PlayerChunk { player: Player { id, address: address.to_string() }, chunk: ChunkCoord::new(x, y) }
}

#[test]
fn chunk_loader_waits_for_tenth_tick() {
    let mut sys = ChunkLoadSystem::new();
    let mut world = WorldManager::new(1);
    let players = vec![pc(1, "a", 0, 0)];
    for _ in 0..9 {
        let out = sys.run(&players, &mut world, &grass);
        assert!(out.sends.is_empty());
        assert!(!out.unload);
    }
    assert!(world.chunks.is_empty());
    assert!(sys.player_chunks.is_empty());
    let out = sys.run(&players, &mut world, &grass);
    assert_eq!(sys.tick_counter, 10);
    assert_eq!(out.sends.len(), 9);
    assert_eq!(world.chunks.len(), 9);
    for s in &out.sends {
        assert_eq!(s.addresses, vec!["a".to_string()]);
        assert!((s.payload.chunk_x - 0).abs() <= 1 && (s.payload.chunk_y - 0).abs() <= 1);
    }
    assert_eq!(sys.player_chunks.get(&1), Some(&ChunkCoord::new(0, 0)));
}

#[test]
fn chunk_loader_groups_addresses_per_chunk() {
    let mut sys = ChunkLoadSystem { player_chunks: Default::default(), tick_counter: 9 };
    let mut world = WorldManager::new(1);
    let players = vec![pc(1, "a", 0, 0), pc(2, "b", 2, 0)];
    let out = sys.run(&players, &mut world, &grass);
    assert_eq!(world.chunks.len(), 15);
    assert_eq!(out.sends.len(), 15);
    let mut shared = 0;
    for s in &out.sends {
        if s.payload.chunk_x == 1 {
            assert_eq!(s.addresses, vec!["a".to_string(), "b".to_string()]);
            shared += 1;
        }
    }
    assert_eq!(shared, 3);
}

#[test]
fn settled_players_get_nothing() {
    let mut sys = ChunkLoadSystem { player_chunks: Default::default(), tick_counter: 9 };
    let mut world = WorldManager::new(1);
    let players = vec![pc(1, "a", 0, 0), pc(2, "b", 5, 5)];
    let first = sys.run(&players, &mut world, &grass);
    assert_eq!(first.sends.len(), 18);
    for _ in 0..9 {
        sys.run(&players, &mut world, &grass);
    }
    let second = sys.run(&players, &mut world, &grass);
    assert_eq!(sys.tick_counter, 20);
    assert!(second.sends.is_empty());
    assert_eq!(world.chunks.len(), 18);
}

#[test]
fn chunk_loader_follows_moving_player_and_asks_unload() {
    let mut sys = ChunkLoadSystem { player_chunks: Default::default(), tick_counter: 89 };
    let mut world = WorldManager::new(0);
    let out = sys.run(&vec![pc(7, "a", 0, 0)], &mut world, &grass);
    assert_eq!(out.sends.len(), 1);
    assert!(!out.unload);
    for _ in 0..9 {
        sys.run(&vec![pc(7, "a", 1, 0)], &mut world, &grass);
    }
    let out = sys.run(&vec![pc(7, "a", 1, 0)], &mut world, &grass);
    assert_eq!(sys.tick_counter, 100);
    assert!(out.unload);
    assert_eq!(out.sends.len(), 1);
    assert_eq!((out.sends[0].payload.chunk_x, out.sends[0].payload.chunk_y), (1, 0));
    assert_eq!(sys.player_chunks.get(&7), Some(&ChunkCoord::new(1, 0)));
}

#[test]
fn find_actor_takes_first_match() {
    let players = vec![
        Player { id: 1, address: "x".to_string() },
        Player { id: 2, address: "y".to_string() },
        Player { id: 2, address: "y".to_string() },
        Player { id: 2, address: "z".to_string() },
    ];
    assert_eq!(InputSystem::find_actor(&players, 2, &"y".to_string()), Some(1));
    assert_eq!(InputSystem::find_actor(&players, 2, &"z".to_string()), Some(3));
    assert_eq!(InputSystem::find_actor(&players, 1, &"y".to_string()), None);
    assert_eq!(InputSystem::find_peer_player(&players, &"y".to_string()), Some(1));
    assert_eq!(InputSystem::find_peer_player(&players, &"w".to_string()), None);
}

#[test]
fn loads_fit_looks_only_at_moved_players() {
    let mut sys = ChunkLoadSystem::new();
    let edge = vec![pc(1, "a", i32::MAX, 0)];
    assert!(!sys.loads_fit(&edge, 1));
    assert!(sys.loads_fit(&edge, 0));
    assert!(sys.loads_fit(&edge, -1));
    assert!(!sys.loads_fit(&edge, i32::MIN));
    sys.player_chunks.insert(1, ChunkCoord::new(i32::MAX, 0));
    assert!(sys.loads_fit(&edge, 1));
    assert!(sys.loads_fit(&edge, i32::MIN));
}

#[test]
fn direction_update_settles() {
    for (moving, vertical, up, left) in [(true, true, true, false), (true, false, false, true), (false, true, false, false)] {
        let mut dir = Direction::Right;
        let mut anim = AnimState("walk".to_string());
        let v = signs(moving, vertical, up, left);
        DirectionSystem::apply(v, &mut dir, &mut anim);
        let (d1, a1) = (dir, anim.0.clone());
        DirectionSystem::apply(v, &mut dir, &mut anim);
        assert_eq!(dir, d1);
        assert_eq!(anim.0, a1);
    }
}
