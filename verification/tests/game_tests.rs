//! End-to-end tests of the player state machine and the game orchestrator.

use rhythm_chase::inputs::Input;
use rhythm_chase::inputs::Key;
use rhythm_chase::rhythm::Rhythm;
use rhythm_chase::tiles::Color;
use rhythm_chase::tiles::Tile;
use rhythm_chase::Camera;
use rhythm_chase::Game;
use rhythm_chase::Level;
use rhythm_chase::Player;
use rhythm_chase::PlayerState;
use rhythm_chase::RCError;
use rhythm_chase::TileDimensions;

fn camera() -> Camera {
    Camera { offset: (0, 0), target: (0, 0) }
}

fn dims() -> TileDimensions {
    TileDimensions { tile_width: 80, tile_height: 80, row_gap: 3, column_gap: 3 }
}

fn always_on() -> Rhythm {
    Rhythm::new(1, 120, vec![0])
}

fn plain(r: u8, g: u8, b: u8) -> Tile {
    Tile { color: Color::new(r, g, b, 255), rhythm: None, goal: false }
}

#[test]
fn movement_debounce_allows_one_move_per_beat() {
    let mut p = Player::new((1, 1), 120, (3, 3));
    p.update(10_000, &vec![]);
    p.update(0, &vec![Input::Key(Key::Right)]);
    assert_eq!(p.position, (2, 1));
    p.update(0, &vec![Input::Key(Key::Down)]);
    assert_eq!(p.position, (2, 1));
    // Wrap below the recorded position: a new beat cycle begins.
    p.update(495_000, &vec![]);
    p.update(0, &vec![Input::Key(Key::Down)]);
    assert_eq!(p.position, (2, 2));
}

#[test]
fn movement_clamps_to_map_bounds() {
    let mut p = Player::new((0, 0), 120, (2, 1));
    p.update(0, &vec![Input::Key(Key::Left)]);
    assert_eq!(p.position, (0, 0));
    let mut q = Player::new((1, 0), 120, (2, 1));
    q.update(0, &vec![Input::Key(Key::Down)]);
    assert_eq!(q.position, (1, 0));
    q.update(0, &vec![Input::Key(Key::Right)]);
    assert_eq!(q.position, (1, 0));
}

#[test]
fn clearing_is_judged_after_the_move() {
    // A 2x1 grid: the start tile is an always-on goal, its neighbour bare.
    let goal = Tile { color: Color::new(1, 1, 1, 255), rhythm: Some(always_on()), goal: true };
    let rows = vec![vec![goal.clone()], vec![plain(2, 2, 2)]];
    let level = Level::new(rows.clone(), (0, 0), 120).unwrap();
    let mut game = Game::new(camera(), dims());
    game.load_level(level).unwrap();
    // Stepping off the goal in the same frame must not clear the level.
    game.update(0, &vec![Input::Key(Key::Right)]);
    assert_eq!(game.player_position(), Some((1, 0)));
    assert_eq!(game.player_state(), Some(PlayerState::Playing));

    // Standing still on the goal does clear it.
    let level = Level::new(rows, (0, 0), 120).unwrap();
    let mut game = Game::new(camera(), dims());
    game.load_level(level).unwrap();
    game.update(0, &vec![]);
    assert_eq!(game.player_position(), Some((0, 0)));
    assert_eq!(game.player_state(), Some(PlayerState::Cleared));
    // Cleared is terminal for input purposes: even the restart key
    // changes nothing.
    game.update(0, &vec![Input::Key(Key::Restart)]);
    assert_eq!(game.player_state(), Some(PlayerState::Cleared));
}

#[test]
fn stepping_on_an_off_tile_dies_and_reset_revives() {
    // The neighbour's rhythm (4 beats, only beat 1 accepted) is off at
    // 1.4 s, while the player's own one-beat pulse is within its window.
    let start = Tile { color: Color::new(1, 1, 1, 255), rhythm: Some(always_on()), goal: false };
    let off_beat = Tile {
        color: Color::new(2, 2, 2, 255),
        rhythm: Some(Rhythm::new(4, 120, vec![1])),
        goal: false,
    };
    let rows = vec![vec![start], vec![off_beat]];
    let level = Level::new(rows, (0, 0), 120).unwrap();
    let mut game = Game::new(camera(), dims());
    game.load_level(level).unwrap();
    game.update(1_400_000, &vec![]);
    assert_eq!(game.player_state(), Some(PlayerState::Playing));
    game.update(0, &vec![Input::Key(Key::Right)]);
    assert_eq!(game.player_position(), Some((1, 0)));
    assert_eq!(game.player_state(), Some(PlayerState::Died));
    // While dead, movement keys do nothing.
    game.update(0, &vec![Input::Key(Key::Left)]);
    assert_eq!(game.player_state(), Some(PlayerState::Died));
    // The restart key revives at the start with every clock zeroed.
    game.update(0, &vec![Input::Key(Key::Restart)]);
    assert_eq!(game.player_state(), Some(PlayerState::Playing));
    assert_eq!(game.player_position(), Some((0, 0)));
    let scene = game.draw().unwrap();
    assert_eq!(scene.player_phase, 0);
}

#[test]
fn walking_off_the_map_dies() {
    let start = Tile { color: Color::new(1, 1, 1, 255), rhythm: Some(always_on()), goal: false };
    let rows = vec![vec![start]];
    let mut level = Level::new(rows, (0, 0), 120).unwrap();
    // A starting location outside the grid leaves the player off-map.
    level.starting_location = (5, 5);
    let mut game = Game::new(camera(), dims());
    game.load_level(level).unwrap();
    game.update(0, &vec![]);
    assert_eq!(game.player_state(), Some(PlayerState::Died));
}

#[test]
fn level_new_rejects_bad_input() {
    let rows = vec![vec![plain(1, 1, 1)]];
    match Level::new(rows, (0, 0), 0) {
        Err(e) => assert_eq!(e, RCError::Configuration),
        Ok(_) => panic!("a zero tempo must be refused"),
    }
    let ragged = vec![vec![plain(1, 1, 1), plain(2, 2, 2)], vec![plain(3, 3, 3)]];
    match Level::new(ragged, (0, 0), 120) {
        Err(e) => assert_eq!(e, RCError::MapFormat),
        Ok(_) => panic!("ragged rows must be refused"),
    }
}

#[test]
fn load_level_rejects_zero_tempo() {
    let rows = vec![vec![plain(1, 1, 1)]];
    let mut level = Level::new(rows, (0, 0), 120).unwrap();
    level.tempo = 0;
    let mut game = Game::new(camera(), dims());
    match game.load_level(level) {
        Err(e) => assert_eq!(e, RCError::Configuration),
        Ok(_) => panic!("a zero tempo must be refused"),
    }
    // Nothing was loaded, so there is nothing to draw.
    assert!(game.draw().is_none());
    assert_eq!(game.player_state(), None);
}

#[test]
fn draw_lists_tiles_with_effective_colors() {
    let on_tile = Tile { color: Color::new(10, 20, 30, 255), rhythm: Some(always_on()), goal: false };
    let rows = vec![vec![on_tile], vec![plain(7, 7, 7)]];
    let level = Level::new(rows, (0, 0), 120).unwrap();
    let mut game = Game::new(camera(), dims());
    game.load_level(level).unwrap();
    let scene = game.draw().unwrap();
    assert_eq!(scene.tiles.len(), 2);
    // Column-major: (0,0) then (1,0); x advances by tile_width + row_gap.
    assert_eq!(scene.tiles[0], (0, 0, Color::new(10, 20, 30, 255)));
    assert_eq!(scene.tiles[1], (83, 0, Color::new(7, 7, 7, 255)));
    // The player is centered on its starting cell.
    assert_eq!(scene.player, ((80 - 3) / 2, (80 - 3) / 2));
    assert_eq!(scene.player_beat_duration, 500_000);
    assert_eq!(scene.overlay, PlayerState::Playing);
}

#[test]
fn level_update_advances_tile_clocks() {
    let blink = Tile { color: Color::new(5, 5, 5, 255), rhythm: Some(Rhythm::new(2, 120, vec![0])), goal: false };
    let rows = vec![vec![blink]];
    let mut level = Level::new(rows, (0, 0), 120).unwrap();
    assert!(level.tiles.get(0, 0).unwrap().on(0).unwrap());
    level.update(600_000, &vec![]);
    let t = level.tiles.get(0, 0).unwrap();
    assert_eq!(t.rhythm.as_ref().unwrap().position(), 600_000);
    assert!(!t.rhythm.as_ref().unwrap().on());
}

#[test]
fn dimensions_layout_math() {
    let d = dims();
    assert_eq!(d.top_left(0, 0), (0, 0));
    assert_eq!(d.top_left(2, 1), (166, 83));
    assert_eq!(d.center(0, 0), ((80 - 3) / 2, (80 - 3) / 2));
    assert_eq!(d.center(1, 0), (83 + 38, 38));
}
