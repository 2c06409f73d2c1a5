use roguelike_core::components::{Position, Renderable, Rgb};
use roguelike_core::map::{GridMap, TileType};
use roguelike_core::player::try_move_player;

fn walled_center_map() -> GridMap {
    let mut m = GridMap {
        tiles: vec![TileType::Wall; 9],
        rooms: Vec::new(),
        width: 3,
        height: 3,
    };
    let idx = m.xy_idx(1, 1);
    m.tiles[idx] = TileType::Floor;
    m
}

#[test]
fn move_into_wall_leaves_position_unchanged() {
    let m = walled_center_map();
    let mut pos = Position { x: 1, y: 1 };
    try_move_player(&m, 1, 0, &mut pos);
    assert_eq!(pos, Position { x: 1, y: 1 });
    try_move_player(&m, 0, -1, &mut pos);
    assert_eq!(pos, Position { x: 1, y: 1 });
    try_move_player(&m, -1, -1, &mut pos);
    assert_eq!(pos, Position { x: 1, y: 1 });
}

#[test]
fn move_onto_floor_succeeds() {
    let mut m = walled_center_map();
    let idx = m.xy_idx(2, 1);
    m.tiles[idx] = TileType::Floor;
    let mut pos = Position { x: 1, y: 1 };
    try_move_player(&m, 1, 0, &mut pos);
    assert_eq!(pos, Position { x: 2, y: 1 });
}

#[test]
fn move_off_grid_is_rejected() {
    let m = GridMap {
        tiles: vec![TileType::Floor; 4],
        rooms: Vec::new(),
        width: 2,
        height: 2,
    };
    let mut pos = Position { x: 0, y: 0 };
    try_move_player(&m, -1, 0, &mut pos);
    assert_eq!(pos, Position { x: 0, y: 0 });
    try_move_player(&m, 0, -1, &mut pos);
    assert_eq!(pos, Position { x: 0, y: 0 });
    try_move_player(&m, 1, 1, &mut pos);
    assert_eq!(pos, Position { x: 1, y: 1 });
    try_move_player(&m, 1, 0, &mut pos);
    assert_eq!(pos, Position { x: 1, y: 1 });
}

#[test]
fn opacity_follows_tiles() {
    let m = walled_center_map();
    let wall_idx = m.xy_idx(0, 0);
    let floor_idx = m.xy_idx(1, 1);
    assert!(m.is_opaque(wall_idx));
    assert!(!m.is_opaque(floor_idx));
    assert_eq!(m.dimensions(), (3, 3));
}

#[test]
fn renderable_carries_plain_values() {
    let r = Renderable {
        glyph: 64,
        fg: Rgb { r: 255, g: 255, b: 0 },
        bg: Rgb { r: 0, g: 0, b: 0 },
    };
    assert_eq!(r.glyph, 64);
    assert_eq!(r.fg, Rgb { r: 255, g: 255, b: 0 });
    assert_ne!(r.fg, r.bg);
}

#[test]
fn player_walks_generated_map_spawn_room() {
    let m = GridMap::new_map_rooms_and_corridors_seeded(42);
    let (px, py) = m.rooms[0].center();
    let mut pos = Position { x: px, y: py };
    try_move_player(&m, 1, 0, &mut pos);
    let idx = m.xy_idx(pos.x, pos.y);
    assert!(m.tiles[idx] == TileType::Floor);
    assert_eq!(pos, Position { x: px + 1, y: py });
}
