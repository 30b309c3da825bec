//! Tests of tiles and the deduplicating tile map.

use rhythm_chase::rhythm::Rhythm;
use rhythm_chase::tiles::tiles_equal;
use rhythm_chase::tiles::Color;
use rhythm_chase::tiles::Tile;
use rhythm_chase::tiles::TileMap;

fn plain(r: u8, g: u8, b: u8) -> Tile {
    Tile { color: Color::new(r, g, b, 255), rhythm: None, goal: false }
}

#[test]
fn test_tile_on() {
    let rhyth = Rhythm::new(2, 60, vec![0]);
    let mut t = Tile { color: Color::new(255, 255, 255, 255), rhythm: Some(rhyth), goal: false };
    assert!(t.on(15_000).unwrap());
    if let Some(r) = t.rhythm.as_mut() {
        r.update(1_005_000);
    }
    assert!(t.on(15_000).unwrap());
    if let Some(r) = t.rhythm.as_mut() {
        r.update(15_000);
    }
    assert!(!t.on(15_000).unwrap());
}

#[test]
fn tile_without_rhythm_has_no_on_state() {
    let t = plain(1, 2, 3);
    assert_eq!(t.on(50_000), None);
    assert_eq!(t.get_color(), Color::new(1, 2, 3, 255));
}

#[test]
fn tile_color_goes_transparent_off_beat() {
    let rhyth = Rhythm::new(2, 120, vec![0]);
    let mut t = Tile { color: Color::new(9, 8, 7, 255), rhythm: Some(rhyth), goal: false };
    assert_eq!(t.get_color(), Color::new(9, 8, 7, 255));
    t.update(600_000);
    assert_eq!(t.get_color(), Color::new(0, 0, 0, 0));
}

#[test]
fn tile_map_stores_and_returns_tiles() {
    let rows = vec![
        vec![plain(1, 0, 0), plain(0, 1, 0)],
        vec![plain(0, 0, 1), plain(1, 0, 0)],
    ];
    let map = TileMap::from_rows(&rows).unwrap();
    assert_eq!(map.num_rows(), 2);
    assert_eq!(map.num_columns(), 2);
    assert_eq!(map.get(0, 0).unwrap().color, Color::new(1, 0, 0, 255));
    assert_eq!(map.get(0, 1).unwrap().color, Color::new(0, 1, 0, 255));
    assert_eq!(map.get(1, 0).unwrap().color, Color::new(0, 0, 1, 255));
    assert_eq!(map.get(1, 1).unwrap().color, Color::new(1, 0, 0, 255));
    assert!(map.get(2, 0).is_none());
    assert!(map.get(0, 2).is_none());
}

#[test]
fn tile_map_deduplicates_identical_tiles() {
    let rows = vec![
        vec![plain(1, 0, 0), plain(0, 1, 0), plain(1, 0, 0)],
        vec![plain(0, 1, 0), plain(1, 0, 0), plain(0, 1, 0)],
    ];
    let map = TileMap::from_rows(&rows).unwrap();
    assert_eq!(map.palette_size(), 2);
}

#[test]
fn tile_map_rejects_ragged_rows() {
    let rows = vec![vec![plain(1, 0, 0), plain(0, 1, 0)], vec![plain(0, 0, 1)]];
    assert!(TileMap::from_rows(&rows).is_none());
}

#[test]
fn tile_map_iterates_column_major() {
    let rows = vec![
        vec![plain(1, 0, 0), plain(0, 1, 0)],
        vec![plain(0, 0, 1), plain(4, 4, 4)],
    ];
    let map = TileMap::from_rows(&rows).unwrap();
    let order: Vec<((usize, usize), Tile)> = map.enumerate_column_major();
    let coords: Vec<(usize, usize)> = order.iter().map(|p| p.0).collect();
    assert_eq!(coords, vec![(0, 0), (1, 0), (0, 1), (1, 1)]);
    assert_eq!(order[0].1.color, Color::new(1, 0, 0, 255));
    assert_eq!(order[1].1.color, Color::new(0, 0, 1, 255));
    assert_eq!(order[2].1.color, Color::new(0, 1, 0, 255));
    assert_eq!(order[3].1.color, Color::new(4, 4, 4, 255));
    assert_eq!(map.indices_column_major(), vec![(0, 0), (1, 0), (0, 1), (1, 1)]);
    let all: Vec<Tile> = map.iter();
    assert_eq!(all.len(), 4);
    assert_eq!(all[3].color, Color::new(4, 4, 4, 255));
}

#[test]
fn tiles_equal_compares_state() {
    let a = Tile { color: Color::new(1, 2, 3, 4), rhythm: Some(Rhythm::new(2, 120, vec![0])), goal: false };
    let b = Tile { color: Color::new(1, 2, 3, 4), rhythm: Some(Rhythm::new(2, 120, vec![0])), goal: false };
    let c = Tile { color: Color::new(1, 2, 3, 4), rhythm: Some(Rhythm::new(2, 120, vec![1])), goal: false };
    assert!(tiles_equal(&a, &b));
    assert!(!tiles_equal(&a, &c));
    assert!(!tiles_equal(&a, &plain(1, 2, 3)));
}

#[test]
fn tile_map_set_tempo_rebinds_all_clocks() {
    let rows = vec![vec![
        Tile { color: Color::new(1, 1, 1, 255), rhythm: Some(Rhythm::new(2, 120, vec![0])), goal: false },
        plain(2, 2, 2),
    ]];
    let mut map = TileMap::from_rows(&rows).unwrap();
    map.set_tempo(60);
    let t = map.get(0, 0).unwrap();
    assert_eq!(t.rhythm.as_ref().unwrap().duration(), 1_000_000);
}
