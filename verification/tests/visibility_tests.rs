use roguelike_core::components::{Position, Viewshed};
use roguelike_core::map::{GridMap, TileType};
use roguelike_core::visibility::{field_of_view, line_clear, recompute_viewshed};

fn open_map(width: i32, height: i32) -> GridMap {
    GridMap {
        tiles: vec![TileType::Floor; (width * height) as usize],
        rooms: Vec::new(),
        width,
        height,
    }
}

#[test]
fn range_zero_sees_exactly_own_tile() {
    let m = open_map(5, 5);
    let tiles = field_of_view(&m, 2, 2, 0);
    assert_eq!(tiles, vec![(2, 2)]);
}

#[test]
fn range_zero_viewshed_via_stage() {
    let m = open_map(5, 5);
    let pos = Position { x: 2, y: 2 };
    let mut vs = Viewshed { visible_tiles: vec![(9, 9)], range: 0 };
    recompute_viewshed(&m, &pos, &mut vs);
    assert_eq!(vs.range, 0);
    assert_eq!(vs.visible_tiles, vec![(2, 2)]);
}

#[test]
fn out_of_bounds_origin_sees_nothing() {
    let m = open_map(5, 5);
    let tiles = field_of_view(&m, -1, 2, 8);
    assert!(tiles.is_empty());
}

#[test]
fn negative_range_sees_nothing() {
    let m = open_map(5, 5);
    let tiles = field_of_view(&m, 2, 2, -3);
    assert!(tiles.is_empty());
}

#[test]
fn huge_range_sees_whole_open_map() {
    let m = open_map(5, 5);
    let tiles = field_of_view(&m, 2, 2, i32::MAX);
    assert_eq!(tiles.len(), 25);
    for x in 0..5 {
        for y in 0..5 {
            assert!(tiles.contains(&(x, y)));
        }
    }
}

#[test]
fn fov_respects_range() {
    let m = open_map(9, 9);
    let tiles = field_of_view(&m, 4, 4, 2);
    assert!(tiles.contains(&(4, 4)));
    assert!(tiles.contains(&(4, 6)));
    assert!(tiles.contains(&(6, 4)));
    assert!(!tiles.contains(&(4, 7)));
    assert!(!tiles.contains(&(7, 4)));
    assert!(!tiles.contains(&(6, 6)));
}

#[test]
fn wall_blocks_tiles_behind_it() {
    let mut m = open_map(5, 1);
    let idx = m.xy_idx(2, 0);
    m.tiles[idx] = TileType::Wall;
    let tiles = field_of_view(&m, 0, 0, 4);
    assert!(tiles.contains(&(0, 0)));
    assert!(tiles.contains(&(1, 0)));
    assert!(tiles.contains(&(2, 0)));
    assert!(!tiles.contains(&(3, 0)));
    assert!(!tiles.contains(&(4, 0)));
    assert!(!line_clear(&m, 0, 0, 3, 0));
    assert!(line_clear(&m, 0, 0, 2, 0));
}

#[test]
fn widening_range_only_adds_tiles() {
    let m = GridMap::new_map_rooms_and_corridors_seeded(42);
    let (px, py) = m.rooms[0].center();
    let narrow = field_of_view(&m, px, py, 4);
    let wide = field_of_view(&m, px, py, 8);
    for t in narrow.iter() {
        assert!(wide.contains(t));
    }
}

#[test]
fn visible_tiles_have_unobstructed_lines() {
    let m = GridMap::new_map_rooms_and_corridors_seeded(42);
    let (px, py) = m.rooms[0].center();
    let tiles = field_of_view(&m, px, py, 8);
    assert!(tiles.contains(&(px, py)));
    for &(tx, ty) in tiles.iter() {
        assert!(tx >= 0 && tx < m.width && ty >= 0 && ty < m.height);
        let dx = (tx - px) as i64;
        let dy = (ty - py) as i64;
        assert!(dx * dx + dy * dy <= 64);
        assert!(line_clear(&m, px, py, tx, ty));
    }
}

#[test]
fn viewshed_recomputed_from_scratch() {
    let mut m = open_map(3, 3);
    let idx = m.xy_idx(2, 2);
    m.tiles[idx] = TileType::Wall;
    let pos = Position { x: 0, y: 0 };
    let mut vs = Viewshed { visible_tiles: vec![(7, 7), (8, 8)], range: 8 };
    recompute_viewshed(&m, &pos, &mut vs);
    assert!(!vs.visible_tiles.contains(&(7, 7)));
    assert!(!vs.visible_tiles.contains(&(8, 8)));
    assert!(vs.visible_tiles.contains(&(0, 0)));
    assert!(vs.visible_tiles.contains(&(1, 1)));
}
