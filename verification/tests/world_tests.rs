use roguelike::components::{Coord, Monster, Name, Player, Position, Renderable, RunState, Viewshed};
use roguelike::field_of_view::MAX_RANGE;
use roguelike::fog::clip_to_grid;
use roguelike::game_map::{GameMap, TileType};
use roguelike::monster_ai_system::MonsterAI;
use roguelike::player::{player_input, try_move_player, Command};
use roguelike::rect::Rect;
use roguelike::render::{draw_entities, draw_map, DrawnTile, FLOOR_GLYPH, WALL_GLYPH};
use roguelike::state::State;
use roguelike::visibility_system::VisibilitySystem;
use roguelike::world::{Components, World};
use rltk::{Algorithm2D, BaseMap, RandomNumberGenerator, RGB};

fn open_grid(width: i32, height: i32) -> GameMap {
    let mut map = GameMap::new(width, height);
    map.carve_block(0, width - 1, 0, height - 1);
    map
}

fn walled_room() -> GameMap {
    // A 7 by 7 grid: wall all round, floor inside, and a wall across column 4.
    let mut map = GameMap::new(7, 7);
    map.carve_block(1, 3, 1, 5);
    map.carve_block(5, 5, 1, 5);
    map
}

fn player_at(x: i32, y: i32, range: i32) -> Components {
    let mut c = Components::new();
    c.position = Some(Position { x, y });
    c.player = Some(Player {});
    c.viewshed = Some(Viewshed::new(range));
    c.name = Some(Name { name: "Player".to_string() });
    c
}

fn monster_at(x: i32, y: i32, range: i32) -> Components {
    let mut c = Components::new();
    c.position = Some(Position { x, y });
    c.monster = Some(Monster {});
    c.viewshed = Some(Viewshed::new(range));
    c
}

fn look(glyph: char) -> Renderable {
    Renderable { glyph: rltk::to_cp437(glyph), fg: RGB::named(rltk::RED), bg: RGB::named(rltk::BLACK) }
}

fn sorted_cells(view: &Viewshed) -> Vec<(i32, i32)> {
    let mut cells: Vec<(i32, i32)> = view.visible_tiles.iter().map(|c| (c.x, c.y)).collect();
    cells.sort();
    cells
}

fn view_of(world: &World, entity: usize) -> &Viewshed {
    world.entities[entity].viewshed.as_ref().unwrap()
}

fn place_of(world: &World, entity: usize) -> (i32, i32) {
    let p = world.entities[entity].position.unwrap();
    (p.x, p.y)
}

fn layers_agree(map: &GameMap) -> bool {
    (0..map.tiles.len()).all(|i| !map.visible_tiles[i] || map.revealed_tiles[i])
}

fn game_on_generated_map(seed: u64) -> State {
    let mut rng = RandomNumberGenerator::seeded(seed);
    let map = GameMap::new_map_rooms_and_corridors(&mut rng);
    let (px, py) = map.rooms[0].center();
    let monsters: Vec<(i32, i32)> = map.rooms.iter().skip(1).map(|r| r.center()).collect();
    let mut world = World::new(map);
    for (x, y) in monsters {
        assert!(world.create_entity(monster_at(x, y, 8)).is_some());
    }
    assert!(world.create_entity(player_at(px, py, 8)).is_some());
    State { ecs: world, runstate: RunState::Running }
}

#[test]
fn open_three_by_three_room_is_seen_whole() {
    let mut world = World::new(open_grid(3, 3));
    let player = world.create_entity(player_at(1, 1, 8)).unwrap();
    VisibilitySystem {}.run(&mut world);
    let mut all = Vec::new();
    for x in 0..3 {
        for y in 0..3 {
            all.push((x, y));
        }
    }
    assert_eq!(sorted_cells(view_of(&world, player)), all);
    assert!(!view_of(&world, player).dirty);
    assert!(world.map.visible_tiles.iter().all(|b| *b));
    assert!(world.map.revealed_tiles.iter().all(|b| *b));
}

#[test]
fn room_with_walls_is_seen_with_its_walls_and_nothing_outside() {
    let mut map = GameMap::new(5, 5);
    map.apply_room_to_map(&Rect::new(0, 0, 3, 3));
    let mut world = World::new(map);
    let player = world.create_entity(player_at(2, 2, 8)).unwrap();
    VisibilitySystem {}.run(&mut world);
    let cells = sorted_cells(view_of(&world, player));
    for x in 1..=3 {
        for y in 1..=3 {
            assert!(cells.contains(&(x, y)), "floor cell ({}, {})", x, y);
        }
    }
    for (x, y) in cells.iter() {
        assert!(0 <= *x && *x < 5 && 0 <= *y && *y < 5);
    }
    let mut unique = cells.clone();
    unique.dedup();
    assert_eq!(unique.len(), cells.len());
}

#[test]
fn walls_block_the_view() {
    let mut world = World::new(walled_room());
    let player = world.create_entity(player_at(2, 3, 8)).unwrap();
    VisibilitySystem {}.run(&mut world);
    let cells = sorted_cells(view_of(&world, player));
    assert!(cells.contains(&(2, 3)));
    assert!(cells.contains(&(1, 1)));
    assert!(cells.contains(&(4, 3)));
    for y in 0..7 {
        assert!(!cells.contains(&(5, y)));
        assert!(!cells.contains(&(6, y)));
        assert!(!world.map.visible_tiles[world.map.xy_idx(5, y)]);
        assert!(!world.map.revealed_tiles[world.map.xy_idx(5, y)]);
    }
}

#[test]
fn range_limits_the_view() {
    let mut world = World::new(open_grid(21, 21));
    let near = world.create_entity(player_at(10, 10, 2)).unwrap();
    VisibilitySystem {}.run(&mut world);
    let cells = sorted_cells(view_of(&world, near));
    assert!(cells.contains(&(10, 10)));
    assert!(cells.contains(&(12, 10)));
    assert!(cells.contains(&(10, 8)));
    assert!(!cells.contains(&(13, 10)));
    assert!(!cells.contains(&(10, 14)));
    let mut blind = World::new(open_grid(5, 5));
    let e = blind.create_entity(player_at(2, 2, 0)).unwrap();
    VisibilitySystem {}.run(&mut blind);
    assert_eq!(sorted_cells(view_of(&blind, e)), vec![(2, 2)]);
}

#[test]
fn view_from_a_corner_stays_on_the_grid() {
    let mut world = World::new(open_grid(4, 4));
    let player = world.create_entity(player_at(0, 0, MAX_RANGE)).unwrap();
    VisibilitySystem {}.run(&mut world);
    let cells = sorted_cells(view_of(&world, player));
    assert!(cells.contains(&(0, 0)));
    assert!(cells.iter().all(|(x, y)| (0..4).contains(x) && (0..4).contains(y)));
    assert!(layers_agree(&world.map));
}

#[test]
fn only_the_player_changes_what_the_map_shows() {
    let mut world = World::new(open_grid(9, 9));
    let monster = world.create_entity(monster_at(4, 4, 8)).unwrap();
    VisibilitySystem {}.run(&mut world);
    assert!(!view_of(&world, monster).dirty);
    assert!(!view_of(&world, monster).visible_tiles.is_empty());
    assert!(world.map.visible_tiles.iter().all(|b| !*b));
    assert!(world.map.revealed_tiles.iter().all(|b| !*b));
}

#[test]
fn entity_without_a_view_or_a_place_takes_no_part() {
    let mut world = World::new(open_grid(5, 5));
    let mut no_place = Components::new();
    no_place.viewshed = Some(Viewshed::new(4));
    no_place.player = Some(Player {});
    let mut no_view = Components::new();
    no_view.position = Some(Position { x: 1, y: 1 });
    no_view.player = Some(Player {});
    let a = world.create_entity(no_place).unwrap();
    let b = world.create_entity(no_view).unwrap();
    VisibilitySystem {}.run(&mut world);
    assert!(view_of(&world, a).dirty);
    assert!(view_of(&world, a).visible_tiles.is_empty());
    assert!(world.entities[b].viewshed.is_none());
    assert!(world.map.visible_tiles.iter().all(|b| !*b));
}

#[test]
fn view_that_is_up_to_date_is_left_alone() {
    let mut world = World::new(walled_room());
    let player = world.create_entity(player_at(2, 3, 8)).unwrap();
    VisibilitySystem {}.run(&mut world);
    let cells: Vec<Coord> = view_of(&world, player).visible_tiles.clone();
    let visible = world.map.visible_tiles.clone();
    let revealed = world.map.revealed_tiles.clone();
    VisibilitySystem {}.run(&mut world);
    assert_eq!(view_of(&world, player).visible_tiles, cells);
    assert_eq!(world.map.visible_tiles, visible);
    assert_eq!(world.map.revealed_tiles, revealed);
}

#[test]
fn refresh_of_one_view() {
    let mut map = walled_room();
    let mut view = Viewshed::new(8);
    VisibilitySystem::refresh(&mut view, Position { x: 2, y: 3 }, false, &mut map);
    assert!(!view.dirty);
    assert_eq!(view.range, 8);
    assert!(view.visible_tiles.contains(&Coord { x: 2, y: 3 }));
    assert!(map.visible_tiles.iter().all(|b| !*b));
    let kept: Vec<Coord> = view.visible_tiles.clone();
    VisibilitySystem::refresh(&mut view, Position { x: 5, y: 1 }, true, &mut map);
    assert_eq!(view.visible_tiles, kept);
    assert!(map.visible_tiles.iter().all(|b| !*b));
    view.dirty = true;
    VisibilitySystem::refresh(&mut view, Position { x: 5, y: 1 }, true, &mut map);
    assert!(view.visible_tiles.contains(&Coord { x: 5, y: 5 }));
    assert!(!view.visible_tiles.contains(&Coord { x: 2, y: 3 }));
    for c in view.visible_tiles.iter() {
        assert!(map.visible_tiles[map.xy_idx(c.x, c.y)]);
        assert!(map.revealed_tiles[map.xy_idx(c.x, c.y)]);
    }
    let lit = map.visible_tiles.iter().filter(|b| **b).count();
    assert_eq!(lit, view.visible_tiles.len());
}

#[test]
fn show_replaces_what_is_in_view_and_adds_to_what_is_revealed() {
    let mut map = GameMap::new(4, 3);
    map.show(&vec![Coord { x: 0, y: 0 }, Coord { x: 3, y: 2 }, Coord { x: 9, y: 9 }, Coord { x: -1, y: 0 }]);
    let mut want = vec![false; 12];
    want[0] = true;
    want[11] = true;
    assert_eq!(map.visible_tiles, want);
    assert_eq!(map.revealed_tiles, want);
    map.show(&vec![Coord { x: 1, y: 1 }, Coord { x: 1, y: 1 }]);
    let mut now = vec![false; 12];
    now[5] = true;
    assert_eq!(map.visible_tiles, now);
    want[5] = true;
    assert_eq!(map.revealed_tiles, want);
    map.show(&Vec::new());
    assert!(map.visible_tiles.iter().all(|b| !*b));
    assert_eq!(map.revealed_tiles, want);
    map.clear_visible();
    assert_eq!(map.revealed_tiles, want);
}

#[test]
fn clip_keeps_cells_of_the_grid_in_order() {
    let map = GameMap::new(3, 2);
    let cells = vec![
        Coord { x: 2, y: 1 },
        Coord { x: 3, y: 1 },
        Coord { x: 0, y: 0 },
        Coord { x: 0, y: -1 },
        Coord { x: 2, y: 2 },
        Coord { x: 2, y: 1 },
    ];
    let kept = clip_to_grid(cells, &map);
    assert_eq!(kept, vec![Coord { x: 2, y: 1 }, Coord { x: 0, y: 0 }, Coord { x: 2, y: 1 }]);
    assert!(clip_to_grid(Vec::new(), &map).is_empty());
}

#[test]
fn step_onto_floor_moves_exactly_there() {
    let map = walled_room();
    let p = Position { x: 2, y: 3 };
    assert_eq!(map.step(p, 1, 0), (Position { x: 3, y: 3 }, true));
    assert_eq!(map.step(p, -1, -1), (Position { x: 1, y: 2 }, true));
    assert_eq!(map.step(p, 0, 0), (p, true));
    assert_eq!(map.step(p, 3, 0), (Position { x: 5, y: 3 }, true));
}

#[test]
fn step_into_wall_or_off_the_grid_does_not_move() {
    let map = walled_room();
    let p = Position { x: 3, y: 3 };
    assert_eq!(map.step(p, 1, 0), (p, false));
    assert_eq!(map.step(p, 0, -3), (p, false));
    assert_eq!(map.step(p, 4, 0), (p, false));
    assert_eq!(map.step(p, -4, 0), (p, false));
    assert_eq!(map.step(p, i32::MAX, i32::MAX), (p, false));
    assert_eq!(map.step(p, i32::MIN, i32::MIN), (p, false));
    let open = open_grid(3, 3);
    let corner = Position { x: 2, y: 2 };
    assert_eq!(open.step(corner, 1, 0), (corner, false));
    assert_eq!(open.step(corner, 0, 1), (corner, false));
}

#[test]
fn move_marks_the_view_until_the_next_run() {
    let mut world = World::new(walled_room());
    let player = world.create_entity(player_at(2, 3, 8)).unwrap();
    assert!(view_of(&world, player).dirty);
    VisibilitySystem {}.run(&mut world);
    assert!(!view_of(&world, player).dirty);
    assert!(!world.try_move(player, 2, 0));
    assert_eq!(place_of(&world, player), (2, 3));
    assert!(!view_of(&world, player).dirty);
    assert!(world.try_move(player, 1, 0));
    assert_eq!(place_of(&world, player), (3, 3));
    assert!(view_of(&world, player).dirty);
    VisibilitySystem {}.run(&mut world);
    assert!(!view_of(&world, player).dirty);
    assert!(view_of(&world, player).visible_tiles.contains(&Coord { x: 3, y: 3 }));
    assert!(world.map.visible_tiles[world.map.xy_idx(3, 3)]);
}

#[test]
fn try_move_of_an_entity_without_a_place_or_a_view() {
    let mut world = World::new(open_grid(5, 5));
    let mut ghost = Components::new();
    ghost.player = Some(Player {});
    let a = world.create_entity(ghost).unwrap();
    let mut walker = Components::new();
    walker.position = Some(Position { x: 1, y: 1 });
    let b = world.create_entity(walker).unwrap();
    assert!(!world.try_move(a, 1, 0));
    assert!(world.entities[a].position.is_none());
    assert!(world.try_move(b, 1, 2));
    assert_eq!(place_of(&world, b), (2, 3));
    assert!(world.entities[b].viewshed.is_none());
}

#[test]
fn try_move_player_moves_players_only() {
    let mut world = World::new(open_grid(6, 6));
    let monster = world.create_entity(monster_at(1, 1, 3)).unwrap();
    let player = world.create_entity(player_at(2, 2, 3)).unwrap();
    VisibilitySystem {}.run(&mut world);
    try_move_player(1, 0, &mut world);
    assert_eq!(place_of(&world, monster), (1, 1));
    assert!(!view_of(&world, monster).dirty);
    assert_eq!(place_of(&world, player), (3, 2));
    assert!(view_of(&world, player).dirty);
    try_move_player(5, 0, &mut world);
    assert_eq!(place_of(&world, player), (3, 2));
}

#[test]
fn create_entity_turns_away_what_does_not_suit_the_grid() {
    let mut world = World::new(open_grid(5, 5));
    assert!(world.create_entity(player_at(5, 0, 8)).is_none());
    assert!(world.create_entity(player_at(0, -1, 8)).is_none());
    assert!(world.create_entity(player_at(1, 1, -1)).is_none());
    assert!(world.create_entity(player_at(1, 1, MAX_RANGE + 1)).is_none());
    let mut both = player_at(1, 1, 8);
    both.monster = Some(Monster {});
    assert!(world.create_entity(both).is_none());
    assert!(world.entities.is_empty());
    assert_eq!(world.create_entity(player_at(4, 4, MAX_RANGE)), Some(0));
    assert_eq!(world.create_entity(Components::new()), Some(1));
    assert_eq!(world.entities.len(), 2);
}

#[test]
fn entity_joins_with_its_view_out_of_date() {
    let mut world = World::new(open_grid(5, 5));
    let mut c = player_at(1, 1, 6);
    c.viewshed = Some(Viewshed { visible_tiles: vec![Coord { x: 40, y: 40 }], range: 6, dirty: false });
    c.renderable = Some(look('@'));
    let e = world.create_entity(c).unwrap();
    let stored = &world.entities[e];
    assert!(view_of(&world, e).dirty);
    assert!(view_of(&world, e).visible_tiles.is_empty());
    assert_eq!(view_of(&world, e).range, 6);
    assert_eq!(stored.position, Some(Position { x: 1, y: 1 }));
    assert_eq!(stored.renderable.as_ref().unwrap().glyph, 64);
    assert_eq!(stored.name.as_ref().unwrap().name, "Player");
    assert!(stored.player.is_some() && stored.monster.is_none());
}

#[test]
fn waiting_entities_join_when_the_step_is_committed() {
    let mut world = World::new(open_grid(5, 5));
    world.create_entity(monster_at(0, 0, 2)).unwrap();
    assert!(world.defer_create(monster_at(1, 1, 2)));
    assert!(world.defer_create(player_at(2, 2, 2)));
    assert!(!world.defer_create(player_at(7, 7, 2)));
    assert_eq!(world.entities.len(), 1);
    assert_eq!(world.pending.len(), 2);
    world.maintain();
    assert_eq!(world.entities.len(), 3);
    assert!(world.pending.is_empty());
    assert_eq!(place_of(&world, 1), (1, 1));
    assert_eq!(place_of(&world, 2), (2, 2));
    world.maintain();
    assert_eq!(world.entities.len(), 3);
}

#[test]
fn monsters_with_a_place_and_a_view_react() {
    let mut world = World::new(open_grid(6, 6));
    world.create_entity(player_at(0, 0, 3)).unwrap();
    world.create_entity(monster_at(1, 1, 3)).unwrap();
    let mut blind = Components::new();
    blind.monster = Some(Monster {});
    blind.position = Some(Position { x: 2, y: 2 });
    world.create_entity(blind).unwrap();
    world.create_entity(monster_at(3, 3, 3)).unwrap();
    let mut nowhere = Components::new();
    nowhere.monster = Some(Monster {});
    nowhere.viewshed = Some(Viewshed::new(3));
    world.create_entity(nowhere).unwrap();
    let before: Vec<(i32, i32)> = (0..4).map(|i| place_of(&world, i)).collect();
    assert_eq!(MonsterAI {}.run(&world), vec![1, 3]);
    let after: Vec<(i32, i32)> = (0..4).map(|i| place_of(&world, i)).collect();
    assert_eq!(before, after);
    assert!(MonsterAI {}.run(&World::new(open_grid(2, 2))).is_empty());
}

#[test]
fn new_game_waits_for_input() {
    let gs = State::new(World::new(open_grid(3, 3)));
    assert_eq!(gs.runstate, RunState::AwaitingInput);
    assert!(gs.ecs.entities.is_empty());
}

#[test]
fn tick_without_input_changes_nothing() {
    let mut gs = State::new(World::new(walled_room()));
    let player = gs.ecs.create_entity(player_at(2, 3, 8)).unwrap();
    for _ in 0..3 {
        assert!(gs.tick(None).is_empty());
        assert_eq!(gs.runstate, RunState::AwaitingInput);
        assert!(view_of(&gs.ecs, player).dirty);
        assert_eq!(place_of(&gs.ecs, player), (2, 3));
        assert!(gs.ecs.map.revealed_tiles.iter().all(|b| !*b));
    }
}

#[test]
fn tick_alternates_between_input_and_simulation() {
    let mut gs = State::new(World::new(walled_room()));
    let player = gs.ecs.create_entity(player_at(2, 3, 8)).unwrap();
    let monster = gs.ecs.create_entity(monster_at(1, 1, 8)).unwrap();
    assert!(gs.tick(Some(Command::Move { dx: 0, dy: 1 })).is_empty());
    assert_eq!(gs.runstate, RunState::Running);
    assert_eq!(place_of(&gs.ecs, player), (2, 4));
    assert!(gs.ecs.map.revealed_tiles.iter().all(|b| !*b));
    // While the simulation is due, input is left aside.
    assert_eq!(gs.tick(Some(Command::Move { dx: 0, dy: 1 })), vec![monster]);
    assert_eq!(gs.runstate, RunState::AwaitingInput);
    assert_eq!(place_of(&gs.ecs, player), (2, 4));
    assert!(!view_of(&gs.ecs, player).dirty);
    assert!(!view_of(&gs.ecs, monster).dirty);
    assert!(gs.ecs.map.visible_tiles[gs.ecs.map.xy_idx(2, 4)]);
    // A move into a wall still counts as a turn.
    assert!(gs.tick(Some(Command::Move { dx: 0, dy: 2 })).is_empty());
    assert_eq!(gs.runstate, RunState::Running);
    assert_eq!(place_of(&gs.ecs, player), (2, 4));
    assert!(!view_of(&gs.ecs, player).dirty);
}

#[test]
fn player_input_maps_input_to_the_next_mode() {
    let mut gs = State::new(World::new(open_grid(4, 4)));
    let player = gs.ecs.create_entity(player_at(1, 1, 2)).unwrap();
    assert_eq!(player_input(&mut gs, None), RunState::AwaitingInput);
    assert_eq!(place_of(&gs.ecs, player), (1, 1));
    assert_eq!(player_input(&mut gs, Some(Command::Move { dx: 1, dy: 1 })), RunState::Running);
    assert_eq!(place_of(&gs.ecs, player), (2, 2));
    assert_eq!(gs.runstate, RunState::AwaitingInput);
}

#[test]
fn step_commits_after_the_systems_have_run() {
    let mut gs = State { ecs: World::new(open_grid(6, 6)), runstate: RunState::Running };
    gs.ecs.create_entity(player_at(1, 1, 3)).unwrap();
    assert!(gs.ecs.defer_create(monster_at(4, 4, 3)));
    let reacting = gs.run_systems();
    assert!(reacting.is_empty());
    assert_eq!(gs.ecs.entities.len(), 2);
    assert!(gs.ecs.pending.is_empty());
    assert!(!view_of(&gs.ecs, 0).dirty);
    assert!(view_of(&gs.ecs, 1).dirty);
    assert_eq!(gs.runstate, RunState::Running);
    assert_eq!(gs.run_systems(), vec![1]);
    assert!(!view_of(&gs.ecs, 1).dirty);
}

#[test]
fn what_is_revealed_only_grows_and_holds_what_is_in_view() {
    let mut gs = game_on_generated_map(2024);
    let player = gs.ecs.entities.len() - 1;
    let mut rng = RandomNumberGenerator::seeded(5);
    let mut revealed = gs.ecs.map.revealed_tiles.clone();
    let tiles = gs.ecs.map.tiles.clone();
    let rooms = gs.ecs.map.rooms.clone();
    for _ in 0..400 {
        let input = match rng.range(0, 5) {
            0 => None,
            1 => Some(Command::Move { dx: -1, dy: 0 }),
            2 => Some(Command::Move { dx: 1, dy: 0 }),
            3 => Some(Command::Move { dx: 0, dy: -1 }),
            _ => Some(Command::Move { dx: 0, dy: 1 }),
        };
        let was = gs.runstate;
        gs.tick(input);
        let map = &gs.ecs.map;
        assert!(layers_agree(map));
        for i in 0..revealed.len() {
            assert!(!revealed[i] || map.revealed_tiles[i]);
        }
        revealed = map.revealed_tiles.clone();
        let (x, y) = place_of(&gs.ecs, player);
        assert!(map.contains(x, y));
        assert_eq!(map.tiles[map.xy_idx(x, y)], TileType::Floor);
        if was == RunState::Running {
            assert_eq!(gs.runstate, RunState::AwaitingInput);
            assert!(!view_of(&gs.ecs, player).dirty);
            assert!(map.visible_tiles[map.xy_idx(x, y)]);
            let lit = map.visible_tiles.iter().filter(|b| **b).count();
            assert_eq!(lit, view_of(&gs.ecs, player).visible_tiles.len());
        } else if input.is_some() {
            assert_eq!(gs.runstate, RunState::Running);
        } else {
            assert_eq!(gs.runstate, RunState::AwaitingInput);
        }
    }
    assert_eq!(gs.ecs.map.tiles, tiles);
    assert_eq!(gs.ecs.map.rooms, rooms);
    assert!(revealed.iter().any(|b| *b));
}

#[test]
fn draw_map_lists_revealed_tiles_row_by_row() {
    let mut map = GameMap::new(3, 2);
    map.carve_block(1, 1, 0, 1);
    let world = World::new(map);
    assert!(draw_map(&world).is_empty());
    let mut world = world;
    world.map.show(&vec![Coord { x: 1, y: 1 }, Coord { x: 2, y: 0 }, Coord { x: 0, y: 1 }]);
    world.map.show(&vec![Coord { x: 1, y: 1 }, Coord { x: 1, y: 0 }]);
    let drawn = draw_map(&world);
    assert_eq!(
        drawn,
        vec![
            DrawnTile { x: 1, y: 0, glyph: 46, tile: TileType::Floor, lit: true },
            DrawnTile { x: 2, y: 0, glyph: 35, tile: TileType::Wall, lit: false },
            DrawnTile { x: 0, y: 1, glyph: 35, tile: TileType::Wall, lit: false },
            DrawnTile { x: 1, y: 1, glyph: 46, tile: TileType::Floor, lit: true },
        ]
    );
    assert_eq!(FLOOR_GLYPH, rltk::to_cp437('.'));
    assert_eq!(WALL_GLYPH, rltk::to_cp437('#'));
}

#[test]
fn entities_are_drawn_only_where_the_player_sees() {
    let mut world = World::new(walled_room());
    let mut seen = monster_at(1, 1, 2);
    seen.renderable = Some(look('g'));
    let mut hidden = monster_at(5, 5, 2);
    hidden.renderable = Some(look('o'));
    let unseen_look = monster_at(3, 3, 2);
    let mut hero = player_at(2, 3, 8);
    hero.renderable = Some(look('@'));
    let a = world.create_entity(seen).unwrap();
    world.create_entity(hidden).unwrap();
    world.create_entity(unseen_look).unwrap();
    let d = world.create_entity(hero).unwrap();
    assert!(draw_entities(&world).is_empty());
    VisibilitySystem {}.run(&mut world);
    assert_eq!(draw_entities(&world), vec![a, d]);
}

#[test]
fn is_well_formed_tells_well_formed_grids() {
    let mut map = GameMap::new(4, 3);
    assert!(map.is_well_formed());
    map.show(&vec![Coord { x: 1, y: 1 }]);
    assert!(map.is_well_formed());
    map.revealed_tiles[5] = false;
    assert!(!map.is_well_formed());
    map.revealed_tiles[5] = true;
    map.tiles.pop();
    assert!(!map.is_well_formed());
    map.tiles.push(TileType::Wall);
    map.width = 0;
    assert!(!map.is_well_formed());
    map.width = 6;
    assert!(!map.is_well_formed());
    map.width = 4;
    map.visible_tiles.push(false);
    assert!(!map.is_well_formed());
    let wide = GameMap {
        tiles: Vec::new(),
        rooms: Vec::new(),
        width: i32::MAX,
        height: 1,
        revealed_tiles: Vec::new(),
        visible_tiles: Vec::new(),
    };
    assert!(!wide.is_well_formed());
}

#[test]
fn is_admissible_tells_what_may_join() {
    let map = open_grid(3, 3);
    assert!(Components::new().is_admissible(&map));
    assert!(player_at(2, 2, 0).is_admissible(&map));
    assert!(!player_at(3, 2, 0).is_admissible(&map));
    assert!(!player_at(2, 2, -1).is_admissible(&map));
    let mut both = monster_at(0, 0, 1);
    both.player = Some(Player {});
    assert!(!both.is_admissible(&map));
}

#[test]
fn grid_tells_rltk_its_sides_and_its_walls() {
    let map = walled_room();
    assert_eq!(map.dimensions(), rltk::Point::new(7, 7));
    assert_eq!(GameMap::new(9, 4).dimensions(), rltk::Point::new(9, 4));
    assert!(map.is_opaque(map.xy_idx(0, 0)));
    assert!(map.is_opaque(map.xy_idx(4, 3)));
    assert!(!map.is_opaque(map.xy_idx(1, 1)));
    assert!(!map.is_opaque(map.xy_idx(5, 5)));
    assert!(map.is_opaque(49));
    assert!(map.is_opaque(usize::MAX));
    assert!(Algorithm2D::in_bounds(&map, rltk::Point::new(6, 6)));
    assert!(!Algorithm2D::in_bounds(&map, rltk::Point::new(7, 0)));
    assert_eq!(map.point2d_to_index(rltk::Point::new(3, 2)), map.xy_idx(3, 2));
}

#[test]
fn view_is_what_rltk_finds() {
    let mut world = World::new(walled_room());
    let player = world.create_entity(player_at(2, 3, 8)).unwrap();
    VisibilitySystem {}.run(&mut world);
    let mut found: Vec<(i32, i32)> = rltk::field_of_view(rltk::Point::new(2, 3), 8, &world.map)
        .iter()
        .map(|p| (p.x, p.y))
        .collect();
    found.sort();
    assert_eq!(sorted_cells(view_of(&world, player)), found);
    assert!(found.len() > 1);
}
