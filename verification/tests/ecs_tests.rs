//! Tests of the entity-component store and its systems.

use rhythm_chase::ecs::draw_player;
use rhythm_chase::ecs::draw_tiles;
use rhythm_chase::ecs::move_player;
use rhythm_chase::ecs::update_rhythms;
use rhythm_chase::ecs::Components;
use rhythm_chase::ecs::Entity;
use rhythm_chase::ecs::Game;
use rhythm_chase::ecs::Position;
use rhythm_chase::rhythm::Rhythm;
use rhythm_chase::tiles::Color;
use rhythm_chase::tiles::Tile;
use rhythm_chase::tiles::TileMap;
use rhythm_chase::Camera;
use rhythm_chase::Player;
use rhythm_chase::TileDimensions;

fn plain(r: u8, g: u8, b: u8) -> Tile {
    Tile { color: Color::new(r, g, b, 255), rhythm: None, goal: false }
}

#[test]
fn recycling_bounds_allocation() {
    let mut c = Components::default();
    // N = 4 allocations, then clear every other one, then M = 3 more:
    // never more than max(N, N - N/2 + M) = 5 slots.
    let mut handles = Vec::new();
    for _ in 0..4 {
        handles.push(c.new_entity());
    }
    assert_eq!(c.positions.len(), 4);
    c.clear_entity(Entity(handles[0].0));
    c.clear_entity(Entity(handles[2].0));
    let a = c.new_entity();
    let b = c.new_entity();
    let d = c.new_entity();
    assert_eq!(c.positions.len(), 5);
    // The two recycled indices come back before the store grows.
    assert!(a.0 == handles[0].0 || a.0 == handles[2].0);
    assert!(b.0 == handles[0].0 || b.0 == handles[2].0);
    assert_ne!(a.0, b.0);
    assert_eq!(d.0, 4);
}

#[test]
fn clear_entity_is_idempotent() {
    let mut c = Components::default();
    let e = c.new_entity();
    c.positions[e.0] = Position(7, 7);
    c.clear_entity(Entity(e.0));
    c.clear_entity(Entity(e.0));
    assert_eq!(c.positions[e.0], Position(0, 0));
    let again = c.new_entity();
    assert_eq!(again.0, e.0);
    // The index was in the free set only once.
    let grown = c.new_entity();
    assert_eq!(grown.0, 1);
}

#[test]
fn move_player_is_gated_by_rhythm() {
    let mut c = Components::default();
    let e = c.new_entity();
    c.players[e.0] = Some(Player::new((0, 0), 120, (8, 8)));
    c.positions[e.0] = Position(10, 10);
    // No rhythm: movement is unconditional.
    move_player(&mut c, Entity(e.0), Position(5, -3));
    assert_eq!(c.positions[e.0], Position(15, 7));
    // An off-window rhythm blocks movement.
    let mut r = Rhythm::new(2, 120, vec![0]);
    r.update(250_000);
    c.rhythms[e.0] = Some(r);
    move_player(&mut c, Entity(e.0), Position(5, 5));
    assert_eq!(c.positions[e.0], Position(15, 7));
    // An in-window rhythm lets it through.
    let mut r = Rhythm::new(2, 120, vec![0]);
    r.update(40_000);
    c.rhythms[e.0] = Some(r);
    move_player(&mut c, Entity(e.0), Position(5, 5));
    assert_eq!(c.positions[e.0], Position(20, 12));
}

#[test]
fn update_rhythms_advances_every_clock() {
    let mut c = Components::default();
    let a = c.new_entity();
    let b = c.new_entity();
    c.rhythms[a.0] = Some(Rhythm::new(2, 120, vec![0]));
    c.rhythms[b.0] = None;
    update_rhythms(&mut c, 640_000);
    assert_eq!(c.rhythms[a.0].as_ref().unwrap().position(), 640_000);
    assert!(c.rhythms[b.0].is_none());
}

#[test]
fn draw_lists_pick_out_tiles_and_players() {
    let mut c = Components::default();
    let t = c.new_entity();
    c.tiles[t.0] = Some(plain(9, 9, 9));
    c.positions[t.0] = Position(100, 200);
    let p = c.new_entity();
    c.players[p.0] = Some(Player::new((0, 0), 120, (8, 8)));
    c.positions[p.0] = Position(300, 400);
    let tiles = draw_tiles(&c);
    assert_eq!(tiles, vec![(Position(100, 200), Color::new(9, 9, 9, 255))]);
    let players = draw_player(&c);
    assert_eq!(players, vec![Position(300, 400)]);
    // A tile whose entity rhythm is off its beat goes fully transparent.
    let mut r = Rhythm::new(2, 120, vec![0]);
    r.update(600_000);
    c.rhythms[t.0] = Some(r);
    let tiles = draw_tiles(&c);
    assert_eq!(tiles, vec![(Position(100, 200), Color::new(0, 0, 0, 0))]);
    // Back on the beat, the tile shows its base color again.
    let mut r = Rhythm::new(2, 120, vec![0]);
    r.update(1_000_000);
    c.rhythms[t.0] = Some(r);
    let tiles = draw_tiles(&c);
    assert_eq!(tiles, vec![(Position(100, 200), Color::new(9, 9, 9, 255))]);
}

#[test]
fn world_loads_a_map_and_places_the_player() {
    let dims = TileDimensions { tile_width: 10, tile_height: 10, row_gap: 0, column_gap: 0 };
    let rows = vec![vec![plain(1, 1, 1), plain(2, 2, 2)]];
    let mut map = TileMap::from_rows(&rows).unwrap();
    map.set_start((0, 1));
    let mut world = Game::new(120, dims);
    world.load_map(map).unwrap();
    world.add_camera(Camera { offset: (0, 0), target: (0, 0) });
    let e = world.add_player(Player::new((0, 1), 120, (1, 2))).unwrap();
    assert_eq!(e.0, 2);
    world.update(40_000, &vec![]);
    let (tiles, players) = world.draw().unwrap();
    assert_eq!(tiles.len(), 2);
    assert_eq!(tiles[0].0, Position(0, 0));
    assert_eq!(tiles[1].0, Position(0, 10));
    assert_eq!(players, vec![Position(0, 10)]);
}

#[test]
fn world_without_tempo_refuses_a_map() {
    let dims = TileDimensions { tile_width: 10, tile_height: 10, row_gap: 0, column_gap: 0 };
    let rows = vec![vec![plain(1, 1, 1)]];
    let map = TileMap::from_rows(&rows).unwrap();
    let mut world = Game::new(0, dims);
    assert!(world.load_map(map).is_err());
    assert!(world.draw().is_err());
}
