use roguelike::game_map::{GameMap, TileType};
use roguelike::generator::{MAX_ROOMS, MAX_SIZE, MIN_SIZE};
use roguelike::rect::{midpoint, Rect};
use rltk::RandomNumberGenerator;

fn floor_count(map: &GameMap) -> usize {
    map.tiles.iter().filter(|t| **t == TileType::Floor).count()
}

fn is_floor(map: &GameMap, x: i32, y: i32) -> bool {
    map.contains(x, y) && map.tiles[map.xy_idx(x, y)] == TileType::Floor
}

/// The floor cells that can be reached from `start` by steps along rows and columns.
fn flood(map: &GameMap, start: (i32, i32)) -> Vec<bool> {
    let mut seen = vec![false; map.tiles.len()];
    if !is_floor(map, start.0, start.1) {
        return seen;
    }
    let mut stack = vec![start];
    seen[map.xy_idx(start.0, start.1)] = true;
    while let Some((x, y)) = stack.pop() {
        for (dx, dy) in [(1, 0), (-1, 0), (0, 1), (0, -1)] {
            let (nx, ny) = (x + dx, y + dy);
            if is_floor(map, nx, ny) && !seen[map.xy_idx(nx, ny)] {
                seen[map.xy_idx(nx, ny)] = true;
                stack.push((nx, ny));
            }
        }
    }
    seen
}

#[test]
fn rect_new_sets_corners() {
    let r = Rect::new(3, 4, 5, 6);
    assert_eq!((r.x1, r.y1, r.x2, r.y2), (3, 4, 8, 10));
}

#[test]
fn rect_center_is_mean_of_corners() {
    assert_eq!(Rect::new(0, 0, 6, 6).center(), (3, 3));
    assert_eq!(Rect::new(2, 3, 7, 9).center(), (5, 7));
    assert_eq!(Rect::new(-3, -5, 2, 2).center(), (-2, -4));
}

#[test]
fn midpoint_rounds_toward_zero() {
    assert_eq!(midpoint(1, 2), 1);
    assert_eq!(midpoint(-1, -2), -1);
    assert_eq!(midpoint(-3, 2), 0);
    assert_eq!(midpoint(i32::MAX, i32::MAX), i32::MAX);
    assert_eq!(midpoint(i32::MIN, i32::MIN), i32::MIN);
}

#[test]
fn rect_intersect_counts_shared_border() {
    let a = Rect::new(0, 0, 4, 4);
    assert!(a.intersect(&Rect::new(2, 2, 4, 4)));
    assert!(a.intersect(&Rect::new(4, 4, 2, 2)));
    assert!(!a.intersect(&Rect::new(5, 0, 2, 2)));
    assert!(!a.intersect(&Rect::new(0, 5, 2, 2)));
    assert!(a.intersect(&a));
}

#[test]
fn new_map_is_all_wall_and_unseen() {
    let map = GameMap::new(7, 5);
    assert_eq!(map.width, 7);
    assert_eq!(map.height, 5);
    assert_eq!(map.tiles.len(), 35);
    assert_eq!(map.revealed_tiles.len(), 35);
    assert_eq!(map.visible_tiles.len(), 35);
    assert!(map.tiles.iter().all(|t| *t == TileType::Wall));
    assert!(map.revealed_tiles.iter().all(|b| !*b));
    assert!(map.visible_tiles.iter().all(|b| !*b));
    assert!(map.rooms.is_empty());
}

#[test]
fn xy_idx_is_row_major() {
    let map = GameMap::new(80, 50);
    assert_eq!(map.xy_idx(0, 0), 0);
    assert_eq!(map.xy_idx(79, 0), 79);
    assert_eq!(map.xy_idx(0, 1), 80);
    assert_eq!(map.xy_idx(5, 3), 245);
    assert_eq!(map.xy_idx(79, 49), 3999);
}

#[test]
fn contains_tells_cells_of_the_grid() {
    let map = GameMap::new(4, 3);
    assert!(map.contains(0, 0));
    assert!(map.contains(3, 2));
    assert!(!map.contains(4, 0));
    assert!(!map.contains(0, 3));
    assert!(!map.contains(-1, 0));
    assert!(!map.contains(0, -1));
}

#[test]
fn apply_room_carves_the_inside_only() {
    let mut map = GameMap::new(10, 10);
    map.apply_room_to_map(&Rect::new(1, 2, 3, 4));
    for y in 0..10 {
        for x in 0..10 {
            let inside = 1 < x && x <= 4 && 2 < y && y <= 6;
            assert_eq!(is_floor(&map, x, y), inside, "cell ({}, {})", x, y);
        }
    }
    assert_eq!(floor_count(&map), 12);
}

#[test]
fn apply_room_passes_over_cells_outside_the_grid() {
    let mut map = GameMap::new(5, 5);
    map.apply_room_to_map(&Rect::new(-3, -3, 20, 5));
    assert_eq!(floor_count(&map), 15);
    assert!(is_floor(&map, 0, 0));
    assert!(is_floor(&map, 4, 2));
    assert!(!is_floor(&map, 0, 3));
    let mut other = GameMap::new(5, 5);
    other.apply_room_to_map(&Rect { x1: i32::MAX, x2: i32::MAX, y1: 0, y2: 3 });
    assert_eq!(floor_count(&other), 0);
}

#[test]
fn horizontal_tunnel_runs_either_way() {
    let mut a = GameMap::new(10, 4);
    a.apply_horizontal_tunnel(2, 6, 1);
    let mut b = GameMap::new(10, 4);
    b.apply_horizontal_tunnel(6, 2, 1);
    assert_eq!(a.tiles, b.tiles);
    assert_eq!(floor_count(&a), 5);
    for x in 2..=6 {
        assert!(is_floor(&a, x, 1));
    }
    assert!(!is_floor(&a, 1, 1));
    assert!(!is_floor(&a, 7, 1));
}

#[test]
fn vertical_tunnel_runs_either_way() {
    let mut a = GameMap::new(4, 10);
    a.apply_vertical_tunnel(7, 3, 2);
    let mut b = GameMap::new(4, 10);
    b.apply_vertical_tunnel(3, 7, 2);
    assert_eq!(a.tiles, b.tiles);
    assert_eq!(floor_count(&a), 5);
    for y in 3..=7 {
        assert!(is_floor(&a, 2, y));
    }
}

#[test]
fn tunnels_are_clipped_to_the_grid() {
    let mut map = GameMap::new(6, 6);
    map.apply_horizontal_tunnel(-10, 100, 2);
    assert_eq!(floor_count(&map), 6);
    map.apply_horizontal_tunnel(0, 5, 9);
    map.apply_vertical_tunnel(0, 5, -1);
    map.apply_vertical_tunnel(i32::MIN, i32::MAX, 6);
    assert_eq!(floor_count(&map), 6);
    assert!(is_floor(&map, 0, 2));
}

#[test]
fn carving_floor_onto_floor_changes_nothing() {
    let mut map = GameMap::new(8, 8);
    map.apply_horizontal_tunnel(1, 6, 3);
    let once = map.tiles.clone();
    map.apply_horizontal_tunnel(1, 6, 3);
    map.apply_horizontal_tunnel(2, 4, 3);
    assert_eq!(map.tiles, once);
}

#[test]
fn corridor_bends_as_asked() {
    let mut h = GameMap::new(10, 10);
    h.carve_corridor((1, 1), (5, 4), true);
    assert!(is_floor(&h, 5, 1));
    assert!(!is_floor(&h, 1, 4));
    assert_eq!(floor_count(&h), 8);
    let mut v = GameMap::new(10, 10);
    v.carve_corridor((1, 1), (5, 4), false);
    assert!(is_floor(&v, 1, 4));
    assert!(!is_floor(&v, 5, 1));
    assert_eq!(floor_count(&v), 8);
    for map in [&h, &v] {
        assert!(flood(map, (1, 1))[map.xy_idx(5, 4)]);
    }
}

#[test]
fn first_room_is_placed_without_a_corridor() {
    let mut map = GameMap::new(20, 20);
    let room = Rect::new(2, 2, 4, 4);
    assert!(map.can_place(&room));
    assert!(map.place_room(room, true));
    assert_eq!(map.rooms, vec![room]);
    assert_eq!(floor_count(&map), 16);
}

#[test]
fn second_room_is_joined_to_the_one_before() {
    let mut map = GameMap::new(30, 30);
    assert!(map.place_room(Rect::new(1, 1, 4, 4), false));
    assert!(map.place_room(Rect::new(15, 18, 6, 6), false));
    assert_eq!(map.rooms.len(), 2);
    // From (3, 3) down the column to row 21, then along the row to (18, 21).
    assert!(is_floor(&map, 3, 10));
    assert!(is_floor(&map, 10, 21));
    assert!(!is_floor(&map, 10, 3));
    let reach = flood(&map, map.rooms[0].center());
    let (cx, cy) = map.rooms[1].center();
    assert_eq!((cx, cy), (18, 21));
    assert!(reach[map.xy_idx(cx, cy)]);
}

#[test]
fn room_outside_the_grid_is_rejected() {
    let mut map = GameMap::new(20, 20);
    let before = map.tiles.clone();
    for room in [
        Rect::new(-1, 2, 4, 4),
        Rect::new(2, -1, 4, 4),
        Rect::new(15, 2, 4, 4),
        Rect::new(2, 15, 4, 4),
    ] {
        assert!(!map.can_place(&room));
        assert!(!map.place_room(room, true));
    }
    assert!(map.place_room(Rect::new(14, 14, 4, 4), true));
    assert_eq!(map.rooms.len(), 1);
    let mut untouched = GameMap::new(20, 20);
    assert!(!untouched.place_room(Rect::new(15, 2, 4, 4), true));
    assert_eq!(untouched.tiles, before);
    assert!(untouched.rooms.is_empty());
}

#[test]
fn room_that_overlaps_is_rejected() {
    let mut map = GameMap::new(30, 30);
    assert!(map.place_room(Rect::new(5, 5, 6, 6), true));
    let tiles = map.tiles.clone();
    assert!(!map.place_room(Rect::new(8, 8, 6, 6), true));
    assert!(!map.place_room(Rect::new(11, 11, 6, 6), true));
    assert_eq!(map.tiles, tiles);
    assert_eq!(map.rooms.len(), 1);
    assert!(map.place_room(Rect::new(12, 12, 6, 6), true));
}

#[test]
fn room_below_the_smallest_size_is_rejected() {
    let mut map = GameMap::new(20, 20);
    assert!(!map.place_room(Rect::new(2, 2, 1, 5), true));
    assert!(!map.place_room(Rect::new(2, 2, 5, 1), true));
    assert!(!map.place_room(Rect::new(2, 2, 0, 0), true));
    assert!(!map.place_room(Rect { x1: 5, x2: 2, y1: 2, y2: 6 }, true));
    assert!(map.place_room(Rect::new(2, 2, 2, 2), true));
    assert_eq!(floor_count(&map), 4);
}

#[test]
fn generated_map_has_a_cell_for_every_index() {
    let mut rng = RandomNumberGenerator::seeded(7);
    let map = GameMap::generate(40, 30, &mut rng);
    assert_eq!(map.tiles.len(), 1200);
    assert_eq!(map.revealed_tiles.len(), 1200);
    assert_eq!(map.visible_tiles.len(), 1200);
    for i in 0..1200usize {
        let (x, y) = ((i % 40) as i32, (i / 40) as i32);
        assert!(map.contains(x, y));
        assert_eq!(map.xy_idx(x, y), i);
        assert!(map.tiles[i] == TileType::Floor || map.tiles[i] == TileType::Wall);
    }
}

#[test]
fn generated_rooms_are_reachable_from_the_first() {
    for seed in 0..25u64 {
        let mut rng = RandomNumberGenerator::seeded(seed);
        let map = GameMap::new_map_rooms_and_corridors(&mut rng);
        assert!(!map.rooms.is_empty());
        assert!(map.rooms.len() <= MAX_ROOMS as usize);
        let reach = flood(&map, map.rooms[0].center());
        for room in map.rooms.iter() {
            for y in room.y1 + 1..=room.y2 {
                for x in room.x1 + 1..=room.x2 {
                    assert!(reach[map.xy_idx(x, y)], "seed {} cell ({}, {})", seed, x, y);
                }
            }
        }
    }
}

#[test]
fn generated_rooms_fit_and_do_not_overlap() {
    let mut rng = RandomNumberGenerator::seeded(99);
    let map = GameMap::new_map_rooms_and_corridors(&mut rng);
    assert_eq!((map.width, map.height), (80, 50));
    for (i, r) in map.rooms.iter().enumerate() {
        assert!(r.x1 >= 0 && r.y1 >= 0 && r.x2 <= 78 && r.y2 <= 48);
        assert!(MIN_SIZE <= r.x2 - r.x1 && r.x2 - r.x1 < MAX_SIZE);
        assert!(MIN_SIZE <= r.y2 - r.y1 && r.y2 - r.y1 < MAX_SIZE);
        for other in map.rooms.iter().skip(i + 1) {
            assert!(!r.intersect(other));
        }
    }
    for x in 0..80 {
        assert!(!is_floor(&map, x, 0) && !is_floor(&map, x, 49));
    }
    for y in 0..50 {
        assert!(!is_floor(&map, 0, y) && !is_floor(&map, 79, y));
    }
    assert!(map.revealed_tiles.iter().all(|b| !*b));
    assert!(map.visible_tiles.iter().all(|b| !*b));
}

#[test]
fn generator_draws_sizes_and_places_from_the_rng() {
    let mut widths = Vec::new();
    let mut lefts = Vec::new();
    for seed in 0..10u64 {
        let mut rng = RandomNumberGenerator::seeded(seed);
        let map = GameMap::new_map_rooms_and_corridors(&mut rng);
        for r in map.rooms.iter() {
            widths.push(r.x2 - r.x1);
            lefts.push(r.x1);
        }
    }
    assert!(widths.iter().any(|w| *w != MIN_SIZE));
    assert!(lefts.iter().any(|x| *x != 0));
    assert!(lefts.iter().any(|x| *x != lefts[0]));
}

#[test]
fn same_seed_gives_the_same_map() {
    let mut first = RandomNumberGenerator::seeded(12345);
    let mut second = RandomNumberGenerator::seeded(12345);
    let a = GameMap::new_map_rooms_and_corridors(&mut first);
    let b = GameMap::new_map_rooms_and_corridors(&mut second);
    assert_eq!(a.tiles, b.tiles);
    assert_eq!(a.rooms, b.rooms);
    let mut third = RandomNumberGenerator::seeded(54321);
    let c = GameMap::new_map_rooms_and_corridors(&mut third);
    assert!(a.tiles != c.tiles || a.rooms != c.rooms);
}

#[test]
fn small_grid_gets_no_room_and_no_endless_loop() {
    let mut rng = RandomNumberGenerator::seeded(3);
    let map = GameMap::generate(5, 5, &mut rng);
    assert!(map.rooms.is_empty());
    assert_eq!(floor_count(&map), 0);
    let tiny = GameMap::generate(1, 1, &mut rng);
    assert_eq!(tiny.tiles, vec![TileType::Wall]);
}

#[test]
fn grid_just_large_enough_always_gets_its_first_room() {
    for seed in 0..20u64 {
        let mut rng = RandomNumberGenerator::seeded(seed);
        let map = GameMap::generate(11, 11, &mut rng);
        assert!(!map.rooms.is_empty());
    }
}
