use hexhavoc::config::WORLD_SIZE;
use hexhavoc::entity::{EntityType, Item};
use hexhavoc::geometry::Vec2;
use hexhavoc::terrain::{TerrainGenerator, TileSample, TileType};
use hexhavoc::world::{chunk_is_visible, get_chunk_coords_visible_from, Game, RegisterError};

const GRASS: TileSample =
    TileSample { elevation: 600_000, temperature: 600_000, humidity: 500_000, resource: 0 };
const FOREST: TileSample =
    TileSample { elevation: 600_000, temperature: 600_000, humidity: 900_000, resource: 0 };
const BARE_FOREST: TileSample =
    TileSample { elevation: 600_000, temperature: 600_000, humidity: 900_000, resource: 400_000 };
const SEA: TileSample = TileSample { elevation: 0, temperature: 0, humidity: 0, resource: 0 };

fn uniform(tile: TileSample) -> Vec<TileSample> {
    vec![tile; (WORLD_SIZE as usize) * (WORLD_SIZE as usize)]
}

fn world_over(samples: Vec<TileSample>) -> Game {
    Game::new(77, String::from("arena"), TerrainGenerator::new(5, samples).unwrap())
}

fn world(tile: TileSample) -> Game {
    world_over(uniform(tile))
}

fn ids(game: &Game) -> Vec<u128> {
    game.entities().iter().map(|e| e.id).collect()
}

#[test]
fn chunks_in_view_from_the_middle() {
    let chunks = get_chunk_coords_visible_from(Vec2::new(512_000, 512_000));
    assert_eq!(chunks.len(), 52);
    assert_eq!(chunks[0], (62, 60));
    assert_eq!(chunks[3], (65, 60));
    assert_eq!(chunks[4], (61, 61));
    assert_eq!(chunks[51], (65, 67));
    assert!(chunks.contains(&(60, 63)));
    assert!(chunks.contains(&(67, 64)));
    assert!(!chunks.contains(&(68, 64)));
    assert!(!chunks.contains(&(67, 66)));
    for pair in chunks.windows(2) {
        assert!((pair[0].1, pair[0].0) < (pair[1].1, pair[1].0));
    }
}

#[test]
fn chunks_in_view_are_clamped_to_the_world() {
    let corner = get_chunk_coords_visible_from(Vec2::new(0, 0));
    assert_eq!(corner.len(), 13);
    assert_eq!(corner[0], (0, 0));
    assert!(corner.iter().all(|c| c.0 >= 0 && c.1 >= 0));
    let far = get_chunk_coords_visible_from(Vec2::new(1_024_000, 1_024_000));
    assert_eq!(far.len(), 13);
    assert_eq!(far[12], (127, 127));
    assert!(far.iter().all(|c| c.0 <= 127 && c.1 <= 127));
    assert!(get_chunk_coords_visible_from(Vec2::new(-100_000, -100_000)).is_empty());
    assert!(get_chunk_coords_visible_from(Vec2::new(i32::MAX, i32::MIN)).is_empty());
}

#[test]
fn a_chunk_is_in_view_up_to_the_view_range() {
    assert!(chunk_is_visible(0, 0, &Vec2::new(36_000, 4_000)));
    assert!(!chunk_is_visible(0, 0, &Vec2::new(36_001, 4_000)));
    assert!(chunk_is_visible(4, 0, &Vec2::new(4_000, 4_000)));
    assert!(!chunk_is_visible(5, 0, &Vec2::new(4_000, 4_000)));
    assert!(chunk_is_visible(2, 3, &Vec2::new(4_000, 4_000)));
    assert!(!chunk_is_visible(3, 3, &Vec2::new(4_000, 4_000)));
    assert!(!chunk_is_visible(-1, 0, &Vec2::new(0, 0)));
    assert!(!chunk_is_visible(128, 127, &Vec2::new(1_023_000, 1_023_000)));
    assert!(chunk_is_visible(127, 127, &Vec2::new(1_023_000, 1_023_000)));
}

#[test]
fn a_chunk_holds_its_tiles_row_by_row() {
    let mut samples = uniform(GRASS);
    samples[(8 * 64 + 2) * 1024 + (8 * 64 + 3)] = FOREST;
    let game = world_over(samples);
    let chunk = game.get_chunk(64, 64);
    assert_eq!(chunk.position, (64, 64));
    assert_eq!(chunk.contents.len(), 64);
    for (k, tile) in chunk.contents.iter().enumerate() {
        let expected = if k == 2 * 8 + 3 { TileType::Forest } else { TileType::Grass };
        assert_eq!(*tile, expected);
    }
    assert_eq!(game.get_tile(8 * 64 + 3, 8 * 64 + 2), TileType::Forest);
}

#[test]
fn chunks_beyond_the_world_are_deep_water() {
    let game = world(GRASS);
    for place in [(128, 0), (-1, -1), (0, 128), (i32::MAX, i32::MIN)] {
        let chunk = game.get_chunk(place.0, place.1);
        assert_eq!(chunk.position, place);
        assert_eq!(chunk.contents, vec![TileType::DeepWater; 64]);
    }
    assert_eq!(game.get_chunk(0, 0).contents, vec![TileType::DeepWater; 64]);
}

#[test]
fn spawn_points_are_land_in_the_inner_region() {
    let game = world(GRASS);
    let mut seen = Vec::new();
    for _ in 0..64 {
        let at = game.get_new_spawn_location();
        assert!(at.x % 1000 == 0 && at.y % 1000 == 0);
        assert!((256_000..768_000).contains(&at.x));
        assert!((256_000..768_000).contains(&at.y));
        assert!(game.can_spawn_at(at.x / 1000, at.y / 1000));
        seen.push((at.x, at.y));
    }
    assert!(seen.iter().any(|at| *at != seen[0]));
}

#[test]
fn the_only_land_is_found() {
    let mut samples = uniform(SEA);
    samples[300 * 1024 + 700] = GRASS;
    samples[100 * 1024 + 100] = GRASS;
    let game = world_over(samples);
    assert!(game.can_spawn_at(700, 300));
    assert!(!game.can_spawn_at(100, 100));
    assert!(!game.can_spawn_at(701, 300));
    for _ in 0..3 {
        assert_eq!(game.get_new_spawn_location(), Vec2::new(700_000, 300_000));
    }
}

#[test]
fn a_world_without_land_spawns_in_the_middle() {
    let game = world(SEA);
    assert_eq!(game.get_new_spawn_location(), Vec2::new(512_000, 512_000));
}

#[test]
fn the_spawn_region_leaves_out_twice_the_water_edge() {
    let game = world(GRASS);
    assert!(game.can_spawn_at(256, 256));
    assert!(game.can_spawn_at(767, 767));
    assert!(!game.can_spawn_at(255, 500));
    assert!(!game.can_spawn_at(500, 768));
}

#[test]
fn a_new_world_is_empty() {
    let game = world(GRASS);
    assert_eq!(game.id(), 77);
    assert_eq!(game.name(), "arena");
    assert!(game.entities().is_empty());
    assert!(game.usernames().is_empty());
    assert_eq!(game.terrain().fields().0.seed, 5);
}

#[test]
fn registering_places_a_player_with_the_starter_tools() {
    let mut game = world(GRASS);
    let entity = game.register_player(9, String::from("ann"), 4).unwrap();
    assert_eq!(entity.id, 9);
    assert_eq!(entity.health, 100);
    assert!(game.can_spawn_at(entity.position.x / 1000, entity.position.y / 1000));
    match &entity.value {
        EntityType::Player(p) => {
            assert_eq!(p.username, "ann");
            assert_eq!(p.skin, 4);
            assert_eq!(p.inventory.selected, 0);
            assert_eq!(
                p.inventory.slots,
                [Some(Item::WoodenSword), Some(Item::WoodenAxe), Some(Item::WoodenPickaxe), None, None, None]
            );
        }
        _ => panic!("a player was registered"),
    }
    assert_eq!(ids(&game), vec![9]);
    assert_eq!(game.usernames(), &vec![String::from("ann")]);
    assert!(game.is_username_taken(&String::from("ann")));
    assert!(!game.is_username_taken(&String::from("bob")));
    assert_eq!(game.get_entity(9).unwrap().position, entity.position);
    assert!(!game.is_visible_to(9, 9));
}

#[test]
fn a_reserved_name_is_refused() {
    let mut game = world(GRASS);
    game.register_player(1, String::from("ann"), 0).unwrap();
    let second = game.register_player(2, String::from("ann"), 0);
    assert!(matches!(second, Err(RegisterError::UsernameTaken)));
    assert_eq!(game.usernames().len(), 1);
    assert_eq!(ids(&game), vec![1]);
    // the name is checked before the id
    assert!(matches!(game.register_player(1, String::from("ann"), 0), Err(RegisterError::UsernameTaken)));
}

#[test]
fn an_id_in_use_is_refused() {
    let mut game = world(GRASS);
    game.register_player(1, String::from("ann"), 0).unwrap();
    let second = game.register_player_at(1, String::from("bob"), 0, Vec2::new(0, 0));
    assert!(matches!(second, Err(RegisterError::AlreadyRegistered)));
    assert_eq!(game.usernames().len(), 1);
    assert_eq!(ids(&game), vec![1]);
}

#[test]
fn resources_are_placed_where_the_terrain_bears_them() {
    let mut samples = uniform(GRASS);
    samples[300 * 1024 + 300] = FOREST;
    samples[300 * 1024 + 400] = BARE_FOREST;
    let mut game = world_over(samples);
    assert!(game.add_resource(10, 300, 300));
    assert!(!game.add_resource(10, 300, 300));
    assert!(!game.add_resource(11, 400, 300));
    assert!(!game.add_resource(11, 500, 300));
    assert!(!game.add_resource(11, -1, 300));
    assert_eq!(ids(&game), vec![10]);
    let tree = game.get_entity(10).unwrap();
    assert_eq!(tree.position, Vec2::new(300_000, 300_000));
    assert_eq!(tree.health, 50);
    assert!(matches!(tree.value, EntityType::ForestTree));
    assert!(game.usernames().is_empty());
}

#[test]
fn generating_places_each_resource_under_an_id_of_its_own() {
    let mut samples = uniform(GRASS);
    let places = [(300usize, 300usize), (640, 200), (5, 900), (1023, 1023), (512, 512)];
    for (x, y) in places {
        samples[y * 1024 + x] = FOREST;
    }
    samples[700 * 1024 + 700] = BARE_FOREST;
    let mut game = world_over(samples);
    game.register_player_at(1, String::from("ann"), 0, Vec2::new(0, 0)).unwrap();
    game.generate_resources();
    let entities = game.entities();
    assert_eq!(entities[0].id, 1);
    // the forest on the border is under water, and the bare forest bears nothing
    let mut found: Vec<(i32, i32)> = entities[1..].iter().map(|e| (e.position.x, e.position.y)).collect();
    assert_eq!(found, vec![(640_000, 200_000), (300_000, 300_000), (512_000, 512_000)]);
    found.clear();
    for e in &entities[1..] {
        assert!(matches!(e.value, EntityType::ForestTree));
        assert_eq!(e.health, 50);
        // version 4, variant 1
        assert_eq!(e.id & 0x0000_0000_0000_f000_c000_0000_0000_0000, 0x0000_0000_0000_4000_8000_0000_0000_0000);
        assert!(!game.is_visible_to(1, e.id));
    }
    let mut all = ids(&game);
    all.sort();
    all.dedup();
    assert_eq!(all.len(), 4);
}

fn arena() -> Game {
    // trees at tiles (300, 300) and (400, 300); players are placed by hand
    let mut samples = uniform(GRASS);
    samples[300 * 1024 + 300] = FOREST;
    samples[300 * 1024 + 400] = FOREST;
    let mut game = world_over(samples);
    assert!(game.add_resource(10, 300, 300));
    assert!(game.add_resource(11, 400, 300));
    game
}

#[test]
fn joining_loads_what_is_in_view_and_every_player() {
    let mut game = arena();
    game.register_player_at(2, String::from("far"), 0, Vec2::new(900_000, 900_000)).unwrap();
    assert!(game.on_join(2).is_some());
    game.register_player_at(1, String::from("near"), 0, Vec2::new(300_000, 300_000)).unwrap();
    let joined = game.on_join(1).unwrap();
    assert_eq!(joined.chunks, get_chunk_coords_visible_from(Vec2::new(300_000, 300_000)));
    // the player stands on the centre of a chunk
    assert_eq!(joined.chunks.len(), 49);
    // the tree in view and the other player, far as it is; not the tree out of view
    assert_eq!(joined.loads.iter().map(|e| e.id).collect::<Vec<_>>(), vec![10, 2]);
    // every player learns of the new one, the new one too
    assert_eq!(joined.audience, vec![2, 1]);
    assert!(game.is_visible_to(1, 10));
    assert!(!game.is_visible_to(1, 11));
    assert!(game.is_visible_to(1, 2));
    assert!(game.is_visible_to(1, 1));
    assert!(game.is_visible_to(2, 1));
    assert!(game.is_visible_to(2, 2));
    assert!(!game.is_visible_to(2, 10));
    // a second join changes nothing and sends nothing but the chunks
    let again = game.on_join(1).unwrap();
    assert!(again.loads.is_empty());
    assert!(again.audience.is_empty());
    // a resource cannot join, nor an unknown id
    assert!(game.on_join(10).is_none());
    assert!(game.on_join(99).is_none());
}

#[test]
fn a_move_loads_what_comes_into_view_and_unloads_what_is_far() {
    let mut game = arena();
    game.register_player_at(2, String::from("watcher"), 0, Vec2::new(310_000, 300_000)).unwrap();
    game.on_join(2).unwrap();
    game.register_player_at(1, String::from("mover"), 0, Vec2::new(300_000, 300_000)).unwrap();
    game.on_join(1).unwrap();
    assert!(game.is_visible_to(1, 10) && game.is_visible_to(1, 2) && game.is_visible_to(1, 1));
    assert!(!game.is_visible_to(1, 11));
    let watcher_before: Vec<bool> = [10, 11, 1, 2].iter().map(|id| game.is_visible_to(2, *id)).collect();

    // a short step: nothing comes into view, nothing is far
    let step = game.on_move(1, Vec2::new(301_000, 300_000)).unwrap();
    assert!(step.chunks.is_empty() && step.loads.is_empty() && step.unloads.is_empty());
    assert_eq!(game.get_entity(1).unwrap().position, Vec2::new(301_000, 300_000));

    // a leap of 99 tiles
    let to = Vec2::new(400_000, 300_000);
    let leap = game.on_move(1, to).unwrap();
    assert_eq!(game.get_entity(1).unwrap().position, to);
    // the view from the old place and from the new do not overlap
    assert_eq!(leap.chunks, get_chunk_coords_visible_from(to));
    // the tree by the new place comes into view
    assert_eq!(leap.loads.iter().map(|e| e.id).collect::<Vec<_>>(), vec![11]);
    // what stood by the old place is farther than 48 tiles: the tree, the
    // watcher, and the mover's own entity where it stood
    assert_eq!(leap.unloads, vec![10, 2, 1]);
    assert!(game.is_visible_to(1, 11));
    assert!(!game.is_visible_to(1, 10) && !game.is_visible_to(1, 2) && !game.is_visible_to(1, 1));
    // what the watcher sees is as it was
    let watcher_after: Vec<bool> = [10, 11, 1, 2].iter().map(|id| game.is_visible_to(2, *id)).collect();
    assert_eq!(watcher_before, watcher_after);
    // positions of the others are as they were
    assert_eq!(game.get_entity(2).unwrap().position, Vec2::new(310_000, 300_000));
    assert_eq!(ids(&game), vec![10, 11, 2, 1]);
}

#[test]
fn an_entity_stays_in_view_up_to_the_unload_range() {
    let mut game = arena();
    game.register_player_at(1, String::from("mover"), 0, Vec2::new(300_000, 300_000)).unwrap();
    game.on_join(1).unwrap();
    // 48 tiles from the tree: it stays
    let kept = game.on_move(1, Vec2::new(348_000, 300_000)).unwrap();
    assert!(kept.unloads.is_empty());
    assert!(game.is_visible_to(1, 10));
    // a thousandth of a tile more: it goes
    let lost = game.on_move(1, Vec2::new(348_001, 300_000)).unwrap();
    assert_eq!(lost.unloads, vec![10]);
    assert!(!game.is_visible_to(1, 10));
    // coming back, its chunk comes into view again
    let back = game.on_move(1, Vec2::new(300_000, 300_000)).unwrap();
    assert_eq!(back.loads.iter().map(|e| e.id).collect::<Vec<_>>(), vec![10]);
    assert!(back.chunks.contains(&(37, 37)));
    assert!(game.is_visible_to(1, 10));
}

#[test]
fn a_client_without_an_entity_moves_nothing() {
    let mut game = arena();
    assert!(game.on_move(5, Vec2::new(1, 1)).is_none());
    assert_eq!(ids(&game), vec![10, 11]);
    assert_eq!(game.get_entity(10).unwrap().position, Vec2::new(300_000, 300_000));
}

fn duel() -> Game {
    let mut game = arena();
    game.register_player_at(1, String::from("ann"), 0, Vec2::new(300_000, 300_000)).unwrap();
    game.on_join(1).unwrap();
    game.register_player_at(2, String::from("bob"), 0, Vec2::new(301_000, 300_000)).unwrap();
    game.on_join(2).unwrap();
    game
}

#[test]
fn an_attack_hits_the_nearest_other_entity_in_reach() {
    let mut game = duel();
    // the cursor is on bob; the tree at (300, 300) is one tile away, ann too
    let hit = game.attack(1, Vec2::new(301_000, 300_000)).unwrap();
    assert_eq!(hit.target, 2);
    // a wooden sword on a player: 5 * 2 * 2
    assert_eq!(hit.new_health, 80);
    assert!(hit.kill_message.is_none());
    let mut viewers = hit.viewers.clone();
    viewers.sort();
    assert_eq!(viewers, vec![1, 2]);
    assert_eq!(game.get_entity(2).unwrap().health, 80);
    assert_eq!(game.get_entity(1).unwrap().health, 100);
    assert_eq!(game.get_entity(10).unwrap().health, 50);
}

#[test]
fn of_two_equally_near_the_first_in_the_table_is_hit() {
    let mut game = duel();
    // the tree stands where ann stands; the cursor is halfway between it and bob
    let hit = game.attack(1, Vec2::new(300_500, 300_000)).unwrap();
    assert_eq!(hit.target, 10);
    // a wooden sword on a tree: 5 * 2
    assert_eq!(hit.new_health, 40);
    // from bob's side the two are ann and the tree, and the tree comes first
    let hit = game.attack(2, Vec2::new(300_000, 300_000)).unwrap();
    assert_eq!(hit.target, 10);
    assert_eq!(hit.new_health, 30);
}

#[test]
fn the_attacker_is_never_its_own_target() {
    let mut game = world(GRASS);
    game.register_player_at(1, String::from("ann"), 0, Vec2::new(300_000, 300_000)).unwrap();
    assert!(game.attack(1, Vec2::new(300_000, 300_000)).is_none());
    assert_eq!(game.get_entity(1).unwrap().health, 100);
}

#[test]
fn an_attack_reaches_up_to_the_attack_range() {
    let mut game = duel();
    // two tiles from bob, and more than two from the tree and from ann
    assert_eq!(game.attack(1, Vec2::new(303_000, 300_000)).unwrap().target, 2);
    assert!(game.attack(1, Vec2::new(303_001, 300_000)).is_none());
    assert!(game.attack(1, Vec2::new(500_000, 500_000)).is_none());
    assert_eq!(game.get_entity(2).unwrap().health, 80);
}

#[test]
fn only_a_player_of_the_world_attacks() {
    let mut game = duel();
    assert!(game.attack(10, Vec2::new(301_000, 300_000)).is_none());
    assert!(game.attack(99, Vec2::new(301_000, 300_000)).is_none());
    assert_eq!(game.get_entity(2).unwrap().health, 100);
}

#[test]
fn the_tool_in_hand_decides_the_damage() {
    let mut game = duel();
    let at_tree = Vec2::new(300_000, 300_000);
    assert!(game.select_item(2, 1));
    // a wooden axe on a tree: 5 * 2 * 2
    assert_eq!(game.attack(2, at_tree).unwrap().new_health, 30);
    assert!(game.select_item(2, 3));
    // an empty slot: 5
    assert_eq!(game.attack(2, at_tree).unwrap().new_health, 25);
    assert!(game.select_item(2, 2));
    // a wooden pickaxe on a tree: 5 * 2
    assert_eq!(game.attack(2, at_tree).unwrap().new_health, 15);
    // a slot that does not exist is refused and the pickaxe stays in hand
    assert!(!game.select_item(2, 6));
    assert!(!game.select_item(10, 0));
    assert!(!game.select_item(99, 0));
    assert_eq!(game.attack(2, at_tree).unwrap().new_health, 5);
}

#[test]
fn a_resource_without_health_leaves_the_world() {
    let mut game = duel();
    let at_tree = Vec2::new(300_000, 300_000);
    assert!(game.select_item(2, 1));
    assert_eq!(game.attack(2, at_tree).unwrap().new_health, 30);
    assert_eq!(game.attack(2, at_tree).unwrap().new_health, 10);
    let last = game.attack(2, at_tree).unwrap();
    assert_eq!(last.target, 10);
    assert_eq!(last.new_health, -10);
    assert!(last.kill_message.is_none());
    let mut viewers = last.viewers.clone();
    viewers.sort();
    assert_eq!(viewers, vec![1, 2]);
    assert!(game.get_entity(10).is_none());
    assert!(!game.is_visible_to(1, 10));
    assert_eq!(ids(&game), vec![11, 1, 2]);
    // with the tree gone, ann is the nearest
    assert_eq!(game.attack(2, at_tree).unwrap().target, 1);
}

#[test]
fn a_killed_player_is_named_to_the_world() {
    let mut game = duel();
    let at_bob = Vec2::new(301_000, 300_000);
    for left in [80, 60, 40, 20] {
        let hit = game.attack(1, at_bob).unwrap();
        assert_eq!((hit.target, hit.new_health), (2, left));
        assert!(hit.kill_message.is_none());
    }
    let last = game.attack(1, at_bob).unwrap();
    assert_eq!((last.target, last.new_health), (2, 0));
    assert_eq!(last.kill_message.as_deref(), Some("ann killed bob"));
    assert!(game.get_entity(2).is_none());
    assert_eq!(ids(&game), vec![10, 11, 1]);
    // the name stays reserved, and the dead cannot act
    assert!(game.is_username_taken(&String::from("bob")));
    assert!(game.attack(2, Vec2::new(300_000, 300_000)).is_none());
    assert!(game.on_move(2, Vec2::new(0, 0)).is_none());
    assert!(!game.select_item(2, 0));
}

#[test]
fn players_are_found_by_name() {
    let game = duel();
    assert_eq!(game.find_player(&String::from("bob")), Some(Vec2::new(301_000, 300_000)));
    assert_eq!(game.find_player(&String::from("ann")), Some(Vec2::new(300_000, 300_000)));
    assert_eq!(game.find_player(&String::from("Bob")), None);
    assert_eq!(game.find_player(&String::from("")), None);
    assert_eq!(game.find_entity(11), Some(1));
    assert_eq!(game.find_entity(12), None);
}

#[test]
fn an_id_in_use_gives_way_to_the_least_free_one() {
    let mut game = arena();
    assert_eq!(game.free_id_from(10), 0);
    assert_eq!(game.free_id_from(12), 12);
    game.register_player_at(0, String::from("zero"), 0, Vec2::new(0, 0)).unwrap();
    game.register_player_at(1, String::from("one"), 0, Vec2::new(0, 0)).unwrap();
    assert_eq!(game.free_id_from(11), 2);
    assert_eq!(game.free_id_from(0), 2);
    assert_eq!(game.free_id_from(2), 2);
}
