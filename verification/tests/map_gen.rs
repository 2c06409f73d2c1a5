use roguelike_core::map::{draw_cells, tile_glyph, GridMap, TileType};
use roguelike_core::rect::Rect;

#[test]
fn tiles_len_matches_dimensions() {
    let m = GridMap::new_map_rooms_and_corridors_seeded(7);
    assert_eq!(m.width, 80);
    assert_eq!(m.height, 50);
    assert_eq!(m.tiles.len(), (m.width * m.height) as usize);
    assert_eq!(m.tiles.len(), 4000);
}

#[test]
fn rooms_pairwise_disjoint() {
    let m = GridMap::new_map_rooms_and_corridors_seeded(7);
    for i in 0..m.rooms.len() {
        for j in 0..m.rooms.len() {
            if i != j {
                assert!(!m.rooms[i].intersect(&m.rooms[j]));
            }
        }
    }
}

#[test]
fn room_interiors_carved_to_floor() {
    let m = GridMap::new_map_rooms_and_corridors_seeded(7);
    assert!(m.rooms.len() > 0);
    for room in m.rooms.iter() {
        for y in room.y1 + 1..=room.y2 {
            for x in room.x1 + 1..=room.x2 {
                let idx = m.xy_idx(x, y);
                assert!(m.tiles[idx] == TileType::Floor);
            }
        }
    }
}

#[test]
fn determinism_same_seed_same_map() {
    let a = GridMap::new_map_rooms_and_corridors_seeded(12345);
    let b = GridMap::new_map_rooms_and_corridors_seeded(12345);
    assert_eq!(a.width, b.width);
    assert_eq!(a.height, b.height);
    assert_eq!(a.tiles, b.tiles);
    assert_eq!(a.rooms, b.rooms);
}

#[test]
fn different_seeds_generate_rooms() {
    for seed in [0u64, 1, 2, 99, 123456789] {
        let m = GridMap::new_map_rooms_and_corridors_seeded(seed);
        assert!(m.rooms.len() > 0);
        assert!(m.rooms.len() <= 30);
    }
}

#[test]
fn scenario_regenerate_and_spawn_on_floor() {
    let a = GridMap::new_map_rooms_and_corridors_seeded(42);
    let b = GridMap::new_map_rooms_and_corridors_seeded(42);
    assert!(a.rooms.len() > 0);
    assert_eq!(a.rooms[0].center(), b.rooms[0].center());
    let (px, py) = a.rooms[0].center();
    let idx = a.xy_idx(px, py);
    assert!(a.tiles[idx] == TileType::Floor);
}

#[test]
fn xy_idx_uses_row_major_formula() {
    let m = GridMap::new_map_rooms_and_corridors_seeded(3);
    assert_eq!(m.xy_idx(0, 0), 0);
    assert_eq!(m.xy_idx(79, 0), 79);
    assert_eq!(m.xy_idx(0, 1), 80);
    assert_eq!(m.xy_idx(7, 3), 3 * 80 + 7);
}

#[test]
fn xy_idx_round_trip() {
    let m = GridMap::new_map_rooms_and_corridors_seeded(3);
    for &(x, y) in [(0, 0), (79, 49), (17, 31), (1, 48)].iter() {
        let idx = m.xy_idx(x, y) as i32;
        assert_eq!(idx % 80, x);
        assert_eq!(idx / 80, y);
    }
    for idx in [0usize, 79, 80, 3999, 2431] {
        let x = (idx % 80) as i32;
        let y = (idx / 80) as i32;
        assert_eq!(m.xy_idx(x, y), idx);
    }
}

#[test]
fn rect_new_center_intersect() {
    let r = Rect::new(10, 20, 6, 8);
    assert_eq!(r.x1, 10);
    assert_eq!(r.y1, 20);
    assert_eq!(r.x2, 16);
    assert_eq!(r.y2, 28);
    assert_eq!(r.center(), (13, 24));

    let touching = Rect::new(16, 20, 4, 4);
    assert!(r.intersect(&touching));
    let separate = Rect::new(30, 30, 4, 4);
    assert!(!r.intersect(&separate));
    assert!(r.intersect(&r));
}

#[test]
fn tile_glyphs_match_tiles() {
    assert_eq!(tile_glyph(TileType::Floor), 46);
    assert_eq!(tile_glyph(TileType::Wall), 35);
}

#[test]
fn draw_cells_walks_grid_row_major() {
    let m = GridMap {
        tiles: vec![
            TileType::Wall,
            TileType::Floor,
            TileType::Wall,
            TileType::Floor,
            TileType::Wall,
            TileType::Floor,
        ],
        rooms: Vec::new(),
        width: 3,
        height: 2,
    };
    let cells = draw_cells(&m);
    assert_eq!(
        cells,
        vec![
            (0, 0, 35),
            (1, 0, 46),
            (2, 0, 35),
            (0, 1, 46),
            (1, 1, 35),
            (2, 1, 46),
        ]
    );
}

fn horiz_run_is_floor(m: &GridMap, xa: i32, xb: i32, y: i32) -> bool {
    (xa.min(xb)..=xa.max(xb)).all(|x| m.tiles[m.xy_idx(x, y)] == TileType::Floor)
}

fn vert_run_is_floor(m: &GridMap, ya: i32, yb: i32, x: i32) -> bool {
    (ya.min(yb)..=ya.max(yb)).all(|y| m.tiles[m.xy_idx(x, y)] == TileType::Floor)
}

#[test]
fn corridors_join_consecutive_room_centers() {
    let m = GridMap::new_map_rooms_and_corridors_seeded(7);
    for i in 1..m.rooms.len() {
        let (ax, ay) = m.rooms[i - 1].center();
        let (bx, by) = m.rooms[i].center();
        let corner_one = horiz_run_is_floor(&m, ax, bx, ay) && vert_run_is_floor(&m, ay, by, bx);
        let corner_two = vert_run_is_floor(&m, ay, by, ax) && horiz_run_is_floor(&m, ax, bx, by);
        assert!(corner_one || corner_two);
    }
}

#[test]
fn floor_appears_only_in_rooms_and_corridors() {
    let m = GridMap::new_map_rooms_and_corridors_seeded(7);
    for x in 0..m.width {
        for y in 0..m.height {
            if m.tiles[m.xy_idx(x, y)] == TileType::Floor {
                let in_interior = m
                    .rooms
                    .iter()
                    .any(|r| r.x1 < x && x <= r.x2 && r.y1 < y && y <= r.y2);
                let on_candidate_run = (1..m.rooms.len()).any(|i| {
                    let (ax, ay) = m.rooms[i - 1].center();
                    let (bx, by) = m.rooms[i].center();
                    let on_h = |row: i32| y == row && ax.min(bx) <= x && x <= ax.max(bx);
                    let on_v = |col: i32| x == col && ay.min(by) <= y && y <= ay.max(by);
                    on_h(ay) || on_h(by) || on_v(ax) || on_v(bx)
                });
                assert!(in_interior || on_candidate_run);
            }
        }
    }
}

#[test]
fn all_room_interiors_reachable_from_spawn() {
    let m = GridMap::new_map_rooms_and_corridors_seeded(7);
    let (sx, sy) = m.rooms[0].center();
    let mut seen = vec![false; m.tiles.len()];
    let mut stack = vec![(sx, sy)];
    seen[m.xy_idx(sx, sy)] = true;
    while let Some((x, y)) = stack.pop() {
        for (nx, ny) in [(x + 1, y), (x - 1, y), (x, y + 1), (x, y - 1)] {
            if 0 <= nx && nx < m.width && 0 <= ny && ny < m.height {
                let idx = m.xy_idx(nx, ny);
                if !seen[idx] && m.tiles[idx] == TileType::Floor {
                    seen[idx] = true;
                    stack.push((nx, ny));
                }
            }
        }
    }
    for room in m.rooms.iter() {
        for y in room.y1 + 1..=room.y2 {
            for x in room.x1 + 1..=room.x2 {
                assert!(seen[m.xy_idx(x, y)]);
            }
        }
    }
}

#[test]
fn generated_map_keeps_wall_margin_around_rooms() {
    let m = GridMap::new_map_rooms_and_corridors_seeded(7);
    for room in m.rooms.iter() {
        assert!(room.x1 >= 0);
        assert!(room.x2 + 1 < m.width);
        assert!(room.y1 >= 0);
        assert!(room.y2 + 1 < m.height);
        assert!(room.x1 + 2 <= room.x2);
        assert!(room.y1 + 2 <= room.y2);
    }
}
