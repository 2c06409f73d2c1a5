use vstd::prelude::*;
use vstd::arithmetic::div_mod::{
    lemma_fundamental_div_mod, lemma_fundamental_div_mod_converse, lemma_mod_pos_bound,
};
use crate::rect::Rect;
use crate::rng::{rng_new, rng_range, rng_roll_dice, rng_seeded};

verus! {

/// One cell of the grid: either blocking (`Wall`) or walkable (`Floor`).
#[derive(PartialEq, Eq, Copy, Clone, Structural, Debug)]
pub enum TileType {
    Wall,
    Floor,
}

/// The glyph a tile is drawn with: `.` for floor, `#` for wall.
pub open spec fn glyph_spec(tile: TileType) -> u8 {
    if tile == TileType::Floor {
        46
    } else {
        35
    }
}

/// The glyph a tile is drawn with.
pub fn tile_glyph(tile: TileType) -> (g: u8)
    ensures
        g == glyph_spec(tile),
{
    match tile {
        TileType::Floor => 46,
        TileType::Wall => 35,
    }
}

/// A rectangular tile grid in row-major order, together with the list of
/// rooms carved into it, in acceptance order.
pub struct GridMap {
    pub tiles: Vec<TileType>,
    pub rooms: Vec<Rect>,
    pub width: i32,
    pub height: i32,
}

/// A room that the generator may accept: inside the grid with a 1-tile wall
/// margin on the far sides, and wide and tall enough for a non-empty interior.
pub open spec fn room_placed(r: Rect, width: int, height: int) -> bool {
    &&& 0 <= r.x1
    &&& r.x1 + 2 <= r.x2
    &&& r.x2 + 1 < width
    &&& 0 <= r.y1
    &&& r.y1 + 2 <= r.y2
    &&& r.y2 + 1 < height
}

/// A room whose width and height were drawn from the configured size range:
/// at least 6 and less than 10 tiles on each axis.
pub open spec fn room_sampled_size(r: Rect) -> bool {
    &&& 6 <= r.x2 - r.x1 <= 9
    &&& 6 <= r.y2 - r.y1 <= 9
}

/// The coordinate lies in the carved interior of room `r`.
pub open spec fn in_room_interior(r: Rect, x: int, y: int) -> bool {
    r.x1 < x <= r.x2 && r.y1 < y <= r.y2
}

/// The coordinate lies on the horizontal run at row `y` between columns
/// `xa` and `xb` (inclusive at both ends, in either order).
pub open spec fn on_horiz_run(xa: int, xb: int, y: int, px: int, py: int) -> bool {
    py == y && (if xa <= xb {
        xa <= px <= xb
    } else {
        xb <= px <= xa
    })
}

/// The coordinate lies on the vertical run at column `x` between rows
/// `ya` and `yb` (inclusive at both ends, in either order).
pub open spec fn on_vert_run(ya: int, yb: int, x: int, px: int, py: int) -> bool {
    px == x && (if ya <= yb {
        ya <= py <= yb
    } else {
        yb <= py <= ya
    })
}

/// The coordinate lies on one of the four runs an L-shaped corridor between
/// `pa` and `pb` can use: a horizontal run at either endpoint's row, or a
/// vertical run at either endpoint's column. Which corner the generator
/// carves is a uniform random choice, so this names every cell a corridor
/// between the two points may touch.
pub open spec fn on_l_candidate(pa: (int, int), pb: (int, int), x: int, y: int) -> bool {
    ||| on_horiz_run(pa.0, pb.0, pa.1, x, y)
    ||| on_horiz_run(pa.0, pb.0, pb.1, x, y)
    ||| on_vert_run(pa.1, pb.1, pa.0, x, y)
    ||| on_vert_run(pa.1, pb.1, pb.0, x, y)
}

impl GridMap {
    /// Basic shape: positive bounded dimensions and a tile for every cell.
    pub open spec fn wf(self) -> bool {
        &&& 0 < self.width <= 4096
        &&& 0 < self.height <= 4096
        &&& self.tiles@.len() == self.width * self.height
    }

    /// The one true index formula: row-major, `y * width + x`.
    pub open spec fn idx_of(self, x: int, y: int) -> int {
        y * self.width + x
    }

    pub open spec fn in_bounds(self, x: int, y: int) -> bool {
        0 <= x < self.width && 0 <= y < self.height
    }

    pub open spec fn tile_at(self, x: int, y: int) -> TileType {
        self.tiles@[self.idx_of(x, y)]
    }

    pub open spec fn is_wall_at(self, x: int, y: int) -> bool {
        self.tile_at(x, y) == TileType::Wall
    }

    /// Every in-bounds coordinate maps to a valid tile index.
    pub proof fn lemma_idx_in_range(self, x: int, y: int)
        requires
            self.wf(),
            self.in_bounds(x, y),
        ensures
            0 <= self.idx_of(x, y) < self.tiles@.len(),
            self.idx_of(x, y) < 0x1000000,
    {
        assert(0 <= y * self.width + x < self.width * self.height && self.width * self.height
            <= 4096 * 4096) by (nonlinear_arith)
            requires
                0 <= x < self.width,
                0 <= y < self.height,
                self.width <= 4096,
                self.height <= 4096,
        ;
    }

    /// Round trip one way: decoding an encoded coordinate by `% width` and
    /// `/ width` gives the coordinate back.
    pub proof fn lemma_xy_idx_roundtrip(self, x: int, y: int)
        requires
            self.wf(),
            self.in_bounds(x, y),
        ensures
            0 <= self.idx_of(x, y) < self.width * self.height,
            self.idx_of(x, y) % (self.width as int) == x,
            self.idx_of(x, y) / (self.width as int) == y,
    {
        self.lemma_idx_in_range(x, y);
        lemma_fundamental_div_mod_converse(y * self.width + x, self.width as int, y, x);
    }

    /// Round trip the other way: every valid index decodes to an in-bounds
    /// coordinate that encodes back to the index. Together with
    /// `lemma_xy_idx_roundtrip` this makes the index formula a bijection
    /// between in-bounds coordinates and valid indices.
    pub proof fn lemma_idx_to_xy(self, idx: int)
        requires
            self.wf(),
            0 <= idx < self.width * self.height,
        ensures
            self.in_bounds(idx % (self.width as int), idx / (self.width as int)),
            self.idx_of(idx % (self.width as int), idx / (self.width as int)) == idx,
    {
        let w = self.width as int;
        lemma_fundamental_div_mod(idx, w);
        lemma_mod_pos_bound(idx, w);
        assert(0 <= idx / w < self.height) by (nonlinear_arith)
            requires
                0 < w,
                idx < w * self.height,
                idx == w * (idx / w) + idx % w,
                0 <= idx % w < w,
                0 <= idx,
        ;
        assert((idx / w) * w + idx % w == idx) by (nonlinear_arith)
            requires
                idx == w * (idx / w) + idx % w,
        ;
    }

    /// Distinct in-bounds coordinates never share an index.
    pub proof fn lemma_idx_injective(self, xa: int, ya: int, xb: int, yb: int)
        requires
            self.wf(),
            self.in_bounds(xa, ya),
            self.in_bounds(xb, yb),
            !(xa == xb && ya == yb),
        ensures
            self.idx_of(xa, ya) != self.idx_of(xb, yb),
    {
        self.lemma_xy_idx_roundtrip(xa, ya);
        self.lemma_xy_idx_roundtrip(xb, yb);
    }

    pub fn xy_idx(&self, x: i32, y: i32) -> (idx: usize)
        requires
            self.wf(),
            self.in_bounds(x as int, y as int),
        ensures
            idx == self.idx_of(x as int, y as int),
            idx < self.tiles@.len(),
    {
        proof {
            self.lemma_idx_in_range(x as int, y as int);
        }
        (y as usize) * (self.width as usize) + (x as usize)
    }

    /// True iff the tile at `idx` blocks sight.
    pub fn is_opaque(&self, idx: usize) -> (r: bool)
        requires
            idx < self.tiles@.len(),
        ensures
            r == (self.tiles@[idx as int] == TileType::Wall),
    {
        self.tiles[idx] == TileType::Wall
    }

    pub fn dimensions(&self) -> (d: (i32, i32))
        ensures
            d.0 == self.width,
            d.1 == self.height,
    {
        (self.width, self.height)
    }

    /// Carve a single tile to floor, leaving every other tile as it was.
    fn set_floor(&mut self, x: i32, y: i32)
        requires
            old(self).wf(),
            old(self).in_bounds(x as int, y as int),
        ensures
            final(self).wf(),
            final(self).width == old(self).width,
            final(self).height == old(self).height,
            final(self).rooms == old(self).rooms,
            final(self).tile_at(x as int, y as int) == TileType::Floor,
            forall|xx: int, yy: int|
                final(self).in_bounds(xx, yy) && !(xx == x as int && yy == y as int)
                    ==> #[trigger] final(self).tile_at(xx, yy) == old(self).tile_at(xx, yy),
            forall|i: int|
                0 <= i < final(self).tiles@.len() ==> #[trigger] final(self).tiles@[i]
                    == TileType::Floor || final(self).tiles@[i] == old(self).tiles@[i],
    {
        let idx = self.xy_idx(x, y);
        self.tiles.set(idx, TileType::Floor);
        proof {
            assert forall|xx: int, yy: int|
                self.in_bounds(xx, yy) && !(xx == x as int && yy == y as int) implies #[trigger] self
                .tile_at(xx, yy) == old(self).tile_at(xx, yy) by {
                self.lemma_idx_in_range(xx, yy);
                self.lemma_idx_injective(x as int, y as int, xx, yy);
            };
        }
    }

    /// Carve the interior of an accepted room to floor. Only floor is ever
    /// written, so earlier carving is never undone.
    fn apply_room_to_map(&mut self, room: &Rect)
        requires
            old(self).wf(),
            0 <= room.x1,
            room.x1 <= room.x2,
            room.x2 < old(self).width,
            0 <= room.y1,
            room.y1 <= room.y2,
            room.y2 < old(self).height,
        ensures
            final(self).wf(),
            final(self).width == old(self).width,
            final(self).height == old(self).height,
            final(self).rooms == old(self).rooms,
            forall|i: int|
                0 <= i < final(self).tiles@.len() ==> #[trigger] final(self).tiles@[i]
                    == TileType::Floor || final(self).tiles@[i] == old(self).tiles@[i],
            forall|x: int, y: int|
                in_room_interior(*room, x, y) ==> #[trigger] final(self).tile_at(x, y)
                    == TileType::Floor,
            forall|x: int, y: int|
                final(self).in_bounds(x, y) && !in_room_interior(*room, x, y)
                    ==> #[trigger] final(self).tile_at(x, y) == old(self).tile_at(x, y),
    {
        let mut y = room.y1 + 1;
        while y <= room.y2
            invariant
                room.y1 < y <= room.y2 + 1,
                self.wf(),
                self.width == old(self).width,
                self.height == old(self).height,
                self.rooms == old(self).rooms,
                forall|i: int|
                    0 <= i < self.tiles@.len() ==> #[trigger] self.tiles@[i] == TileType::Floor
                        || self.tiles@[i] == old(self).tiles@[i],
                forall|xx: int, yy: int|
                    room.x1 < xx <= room.x2 && room.y1 < yy < y ==> #[trigger] self.tile_at(xx, yy)
                        == TileType::Floor,
                forall|xx: int, yy: int|
                    self.in_bounds(xx, yy) && !(room.x1 < xx <= room.x2 && room.y1 < yy < y)
                        ==> #[trigger] self.tile_at(xx, yy) == old(self).tile_at(xx, yy),
            decreases room.y2 + 1 - y,
        {
            let mut x = room.x1 + 1;
            while x <= room.x2
                invariant
                    room.x1 < x <= room.x2 + 1,
                    room.y1 < y <= room.y2,
                    self.wf(),
                    self.width == old(self).width,
                    self.height == old(self).height,
                    self.rooms == old(self).rooms,
                    forall|i: int|
                        0 <= i < self.tiles@.len() ==> #[trigger] self.tiles@[i] == TileType::Floor
                            || self.tiles@[i] == old(self).tiles@[i],
                    forall|xx: int, yy: int|
                        room.x1 < xx <= room.x2 && room.y1 < yy < y ==> #[trigger] self.tile_at(
                            xx,
                            yy,
                        ) == TileType::Floor,
                    forall|xx: int|
                        room.x1 < xx < x ==> #[trigger] self.tile_at(xx, y as int)
                            == TileType::Floor,
                    forall|xx: int, yy: int|
                        self.in_bounds(xx, yy) && !(room.x1 < xx <= room.x2 && room.y1 < yy < y)
                            && !(yy == y && room.x1 < xx < x) ==> #[trigger] self.tile_at(xx, yy)
                            == old(self).tile_at(xx, yy),
                decreases room.x2 + 1 - x,
            {
                self.set_floor(x, y);
                x += 1;
            }
            y += 1;
        }
    }

    /// Every in-bounds cell of the horizontal run at row `y` between columns
    /// `xa` and `xb` is floor.
    pub open spec fn horiz_run_floor(self, xa: int, xb: int, y: int) -> bool {
        forall|px: int, py: int|
            on_horiz_run(xa, xb, y, px, py) && self.in_bounds(px, py) ==> #[trigger] self.tile_at(
                px,
                py,
            ) == TileType::Floor
    }

    /// Every in-bounds cell of the vertical run at column `x` between rows
    /// `ya` and `yb` is floor.
    pub open spec fn vert_run_floor(self, ya: int, yb: int, x: int) -> bool {
        forall|px: int, py: int|
            on_vert_run(ya, yb, x, px, py) && self.in_bounds(px, py) ==> #[trigger] self.tile_at(
                px,
                py,
            ) == TileType::Floor
    }

    /// An L-shaped corridor joins `pa` to `pb`: a carved horizontal run at
    /// one endpoint's row and a carved vertical run at the other endpoint's
    /// column, meeting at one of the two possible corners.
    pub open spec fn l_corridor_floor(self, pa: (int, int), pb: (int, int)) -> bool {
        ||| (self.horiz_run_floor(pa.0, pb.0, pa.1) && self.vert_run_floor(pa.1, pb.1, pb.0))
        ||| (self.vert_run_floor(pa.1, pb.1, pa.0) && self.horiz_run_floor(pa.0, pb.0, pb.1))
    }

    /// Carve a one-tile-high horizontal run of floor between two columns,
    /// silently skipping any cell that lies outside the grid; every tile off
    /// the run is left as it was. The columns stay below `i32::MAX` so the
    /// scan counter can step past the run's end.
    fn apply_horizontal_tunnel(&mut self, x1: i32, x2: i32, y: i32)
        requires
            old(self).wf(),
            x1 < i32::MAX,
            x2 < i32::MAX,
        ensures
            final(self).wf(),
            final(self).width == old(self).width,
            final(self).height == old(self).height,
            final(self).rooms == old(self).rooms,
            forall|i: int|
                0 <= i < final(self).tiles@.len() ==> #[trigger] final(self).tiles@[i]
                    == TileType::Floor || final(self).tiles@[i] == old(self).tiles@[i],
            final(self).horiz_run_floor(x1 as int, x2 as int, y as int),
            forall|xx: int, yy: int|
                final(self).in_bounds(xx, yy) && !on_horiz_run(x1 as int, x2 as int, y as int, xx, yy)
                    ==> #[trigger] final(self).tile_at(xx, yy) == old(self).tile_at(xx, yy),
    {
        let lo = if x1 < x2 {
            x1
        } else {
            x2
        };
        let hi = if x1 < x2 {
            x2
        } else {
            x1
        };
        let mut x = lo;
        while x <= hi
            invariant
                lo <= x <= hi + 1,
                self.wf(),
                self.width == old(self).width,
                self.height == old(self).height,
                self.rooms == old(self).rooms,
                forall|i: int|
                    0 <= i < self.tiles@.len() ==> #[trigger] self.tiles@[i] == TileType::Floor
                        || self.tiles@[i] == old(self).tiles@[i],
                forall|xx: int|
                    lo <= xx < x && self.in_bounds(xx, y as int) ==> #[trigger] self.tile_at(
                        xx,
                        y as int,
                    ) == TileType::Floor,
                forall|xx: int, yy: int|
                    self.in_bounds(xx, yy) && !(yy == y && lo <= xx < x) ==> #[trigger] self.tile_at(
                        xx,
                        yy,
                    ) == old(self).tile_at(xx, yy),
            decreases hi + 1 - x,
        {
            if 0 <= x && x < self.width && 0 <= y && y < self.height {
                self.set_floor(x, y);
            }
            x += 1;
        }
    }

    /// Carve a one-tile-wide vertical run of floor between two rows, silently
    /// skipping any cell that lies outside the grid; every tile off the run
    /// is left as it was. The rows stay below `i32::MAX` so the scan counter
    /// can step past the run's end.
    fn apply_vertical_tunnel(&mut self, y1: i32, y2: i32, x: i32)
        requires
            old(self).wf(),
            y1 < i32::MAX,
            y2 < i32::MAX,
        ensures
            final(self).wf(),
            final(self).width == old(self).width,
            final(self).height == old(self).height,
            final(self).rooms == old(self).rooms,
            forall|i: int|
                0 <= i < final(self).tiles@.len() ==> #[trigger] final(self).tiles@[i]
                    == TileType::Floor || final(self).tiles@[i] == old(self).tiles@[i],
            final(self).vert_run_floor(y1 as int, y2 as int, x as int),
            forall|xx: int, yy: int|
                final(self).in_bounds(xx, yy) && !on_vert_run(y1 as int, y2 as int, x as int, xx, yy)
                    ==> #[trigger] final(self).tile_at(xx, yy) == old(self).tile_at(xx, yy),
    {
        let lo = if y1 < y2 {
            y1
        } else {
            y2
        };
        let hi = if y1 < y2 {
            y2
        } else {
            y1
        };
        let mut y = lo;
        while y <= hi
            invariant
                lo <= y <= hi + 1,
                self.wf(),
                self.width == old(self).width,
                self.height == old(self).height,
                self.rooms == old(self).rooms,
                forall|i: int|
                    0 <= i < self.tiles@.len() ==> #[trigger] self.tiles@[i] == TileType::Floor
                        || self.tiles@[i] == old(self).tiles@[i],
                forall|yy: int|
                    lo <= yy < y && self.in_bounds(x as int, yy) ==> #[trigger] self.tile_at(
                        x as int,
                        yy,
                    ) == TileType::Floor,
                forall|xx: int, yy: int|
                    self.in_bounds(xx, yy) && !(xx == x && lo <= yy < y) ==> #[trigger] self.tile_at(
                        xx,
                        yy,
                    ) == old(self).tile_at(xx, yy),
            decreases hi + 1 - y,
        {
            if 0 <= x && x < self.width && 0 <= y && y < self.height {
                self.set_floor(x, y);
            }
            y += 1;
        }
    }

    /// Every interior tile of `r` is floor.
    pub open spec fn room_interior_floor(self, r: Rect) -> bool {
        forall|x: int, y: int|
            r.x1 < x <= r.x2 && r.y1 < y <= r.y2 ==> #[trigger] self.tile_at(x, y)
                == TileType::Floor
    }

    /// The coordinate lies in some accepted room's interior or on one of the
    /// candidate corridor runs between a consecutive pair of room centers —
    /// the only places the generator ever carves.
    pub open spec fn tile_carved(self, x: int, y: int) -> bool {
        ||| exists|k: int|
            0 <= k < self.rooms@.len() && in_room_interior(#[trigger] self.rooms@[k], x, y)
        ||| exists|i: int|
            1 <= i < self.rooms@.len() && on_l_candidate(
                self.rooms@[i - 1].center_spec(),
                (#[trigger] self.rooms@[i]).center_spec(),
                x,
                y,
            )
    }

    /// What the dungeon generator guarantees of every map it returns: the
    /// fixed 80 by 50 grid, between one room (the first candidate can never
    /// collide with an earlier one) and one room per attempt, every accepted
    /// room inside the grid with its margin and of the sampled size, no two
    /// accepted rooms overlapping (margin included), every room interior
    /// carved to floor, each consecutive pair of room centers joined by an
    /// L-shaped floor corridor, and floor nowhere but in room interiors and
    /// corridor runs — everything else is still wall.
    pub open spec fn generated(self) -> bool {
        &&& self.wf()
        &&& self.width == 80
        &&& self.height == 50
        &&& 1 <= self.rooms@.len() <= 30
        &&& forall|k: int|
            0 <= k < self.rooms@.len() ==> room_placed(
                #[trigger] self.rooms@[k],
                self.width as int,
                self.height as int,
            )
        &&& forall|k: int| 0 <= k < self.rooms@.len() ==> room_sampled_size(
            #[trigger] self.rooms@[k],
        )
        &&& forall|a: int, b: int|
            #![trigger self.rooms@[a], self.rooms@[b]]
            0 <= a < self.rooms@.len() && 0 <= b < self.rooms@.len() && a != b
                ==> !self.rooms@[a].overlaps(self.rooms@[b])
        &&& forall|k: int| 0 <= k < self.rooms@.len() ==> self.room_interior_floor(
            #[trigger] self.rooms@[k],
        )
        &&& forall|i: int|
            1 <= i < self.rooms@.len() ==> self.l_corridor_floor(
                self.rooms@[i - 1].center_spec(),
                (#[trigger] self.rooms@[i]).center_spec(),
            )
        &&& forall|x: int, y: int|
            self.in_bounds(x, y) && #[trigger] self.tile_at(x, y) == TileType::Floor
                ==> self.tile_carved(x, y)
    }

    /// A carved room interior survives any later carving, because carving
    /// only ever writes floor.
    pub proof fn lemma_floor_preserved(pre: GridMap, post: GridMap, r: Rect)
        requires
            pre.wf(),
            post.wf(),
            post.width == pre.width,
            post.height == pre.height,
            forall|i: int|
                0 <= i < post.tiles@.len() ==> #[trigger] post.tiles@[i] == TileType::Floor
                    || post.tiles@[i] == pre.tiles@[i],
            pre.room_interior_floor(r),
            0 <= r.x1,
            r.x2 < pre.width,
            0 <= r.y1,
            r.y2 < pre.height,
        ensures
            post.room_interior_floor(r),
    {
        assert forall|x: int, y: int|
            r.x1 < x <= r.x2 && r.y1 < y <= r.y2 implies #[trigger] post.tile_at(x, y)
            == TileType::Floor by {
            assert(pre.tile_at(x, y) == TileType::Floor);
            pre.lemma_idx_in_range(x, y);
            post.lemma_idx_in_range(x, y);
        };
    }

    /// `lemma_floor_preserved`, applied to every room of an unchanged room
    /// list at once.
    proof fn lemma_rooms_floor_preserved(pre: GridMap, post: GridMap)
        requires
            pre.wf(),
            post.wf(),
            post.width == pre.width,
            post.height == pre.height,
            post.rooms == pre.rooms,
            forall|i: int|
                0 <= i < post.tiles@.len() ==> #[trigger] post.tiles@[i] == TileType::Floor
                    || post.tiles@[i] == pre.tiles@[i],
            forall|k: int|
                0 <= k < pre.rooms@.len() ==> room_placed(
                    #[trigger] pre.rooms@[k],
                    pre.width as int,
                    pre.height as int,
                ),
            forall|k: int| 0 <= k < pre.rooms@.len() ==> pre.room_interior_floor(
                #[trigger] pre.rooms@[k],
            ),
        ensures
            forall|k: int| 0 <= k < post.rooms@.len() ==> post.room_interior_floor(
                #[trigger] post.rooms@[k],
            ),
    {
        assert forall|k: int| 0 <= k < post.rooms@.len() implies post.room_interior_floor(
            #[trigger] post.rooms@[k],
        ) by {
            Self::lemma_floor_preserved(pre, post, post.rooms@[k]);
        };
    }

    /// A carved horizontal run survives any later carving, because carving
    /// only ever writes floor.
    proof fn lemma_hrun_preserved(pre: GridMap, post: GridMap, xa: int, xb: int, y: int)
        requires
            pre.wf(),
            post.wf(),
            post.width == pre.width,
            post.height == pre.height,
            forall|i: int|
                0 <= i < post.tiles@.len() ==> #[trigger] post.tiles@[i] == TileType::Floor
                    || post.tiles@[i] == pre.tiles@[i],
            pre.horiz_run_floor(xa, xb, y),
        ensures
            post.horiz_run_floor(xa, xb, y),
    {
        assert forall|px: int, py: int|
            on_horiz_run(xa, xb, y, px, py) && post.in_bounds(px, py) implies #[trigger] post
            .tile_at(px, py) == TileType::Floor by {
            assert(pre.tile_at(px, py) == TileType::Floor);
            pre.lemma_idx_in_range(px, py);
            post.lemma_idx_in_range(px, py);
        };
    }

    /// A carved vertical run survives any later carving.
    proof fn lemma_vrun_preserved(pre: GridMap, post: GridMap, ya: int, yb: int, x: int)
        requires
            pre.wf(),
            post.wf(),
            post.width == pre.width,
            post.height == pre.height,
            forall|i: int|
                0 <= i < post.tiles@.len() ==> #[trigger] post.tiles@[i] == TileType::Floor
                    || post.tiles@[i] == pre.tiles@[i],
            pre.vert_run_floor(ya, yb, x),
        ensures
            post.vert_run_floor(ya, yb, x),
    {
        assert forall|px: int, py: int|
            on_vert_run(ya, yb, x, px, py) && post.in_bounds(px, py) implies #[trigger] post
            .tile_at(px, py) == TileType::Floor by {
            assert(pre.tile_at(px, py) == TileType::Floor);
            pre.lemma_idx_in_range(px, py);
            post.lemma_idx_in_range(px, py);
        };
    }

    /// A carved L-corridor survives any later carving, in whichever of its
    /// two orientations it was carved.
    proof fn lemma_corridor_preserved(pre: GridMap, post: GridMap, pa: (int, int), pb: (int, int))
        requires
            pre.wf(),
            post.wf(),
            post.width == pre.width,
            post.height == pre.height,
            forall|i: int|
                0 <= i < post.tiles@.len() ==> #[trigger] post.tiles@[i] == TileType::Floor
                    || post.tiles@[i] == pre.tiles@[i],
            pre.l_corridor_floor(pa, pb),
        ensures
            post.l_corridor_floor(pa, pb),
    {
        if pre.horiz_run_floor(pa.0, pb.0, pa.1) && pre.vert_run_floor(pa.1, pb.1, pb.0) {
            Self::lemma_hrun_preserved(pre, post, pa.0, pb.0, pa.1);
            Self::lemma_vrun_preserved(pre, post, pa.1, pb.1, pb.0);
        } else {
            Self::lemma_vrun_preserved(pre, post, pa.1, pb.1, pa.0);
            Self::lemma_hrun_preserved(pre, post, pa.0, pb.0, pb.1);
        }
    }

    /// `lemma_corridor_preserved`, applied to the corridor of every
    /// consecutive room pair of an unchanged room list at once.
    proof fn lemma_corridors_floor_preserved(pre: GridMap, post: GridMap)
        requires
            pre.wf(),
            post.wf(),
            post.width == pre.width,
            post.height == pre.height,
            post.rooms == pre.rooms,
            forall|i: int|
                0 <= i < post.tiles@.len() ==> #[trigger] post.tiles@[i] == TileType::Floor
                    || post.tiles@[i] == pre.tiles@[i],
            forall|i: int|
                1 <= i < pre.rooms@.len() ==> pre.l_corridor_floor(
                    pre.rooms@[i - 1].center_spec(),
                    (#[trigger] pre.rooms@[i]).center_spec(),
                ),
        ensures
            forall|i: int|
                1 <= i < post.rooms@.len() ==> post.l_corridor_floor(
                    post.rooms@[i - 1].center_spec(),
                    (#[trigger] post.rooms@[i]).center_spec(),
                ),
    {
        assert forall|i: int| 1 <= i < post.rooms@.len() implies post.l_corridor_floor(
            post.rooms@[i - 1].center_spec(),
            (#[trigger] post.rooms@[i]).center_spec(),
        ) by {
            Self::lemma_corridor_preserved(
                pre,
                post,
                pre.rooms@[i - 1].center_spec(),
                pre.rooms@[i].center_spec(),
            );
        };
    }

    /// Appending rooms never shrinks the carved region: a coordinate
    /// explained by the old room list is explained by the extended one.
    proof fn lemma_carved_monotone(pre: GridMap, post: GridMap, x: int, y: int)
        requires
            pre.rooms@.len() <= post.rooms@.len(),
            forall|k: int| 0 <= k < pre.rooms@.len() ==> post.rooms@[k] == #[trigger] pre.rooms@[k],
            pre.tile_carved(x, y),
        ensures
            post.tile_carved(x, y),
    {
        if exists|k: int|
            0 <= k < pre.rooms@.len() && in_room_interior(#[trigger] pre.rooms@[k], x, y) {
            let k = choose|k: int|
                0 <= k < pre.rooms@.len() && in_room_interior(#[trigger] pre.rooms@[k], x, y);
            assert(in_room_interior(post.rooms@[k], x, y));
        } else {
            let i = choose|i: int|
                1 <= i < pre.rooms@.len() && on_l_candidate(
                    pre.rooms@[i - 1].center_spec(),
                    (#[trigger] pre.rooms@[i]).center_spec(),
                    x,
                    y,
                );
            assert(on_l_candidate(
                post.rooms@[i - 1].center_spec(),
                (post.rooms@[i]).center_spec(),
                x,
                y,
            ));
        }
    }

    /// A grid of the given dimensions filled entirely with wall.
    fn new_blank(width: i32, height: i32) -> (m: GridMap)
        requires
            0 < width <= 4096,
            0 < height <= 4096,
        ensures
            m.wf(),
            m.width == width,
            m.height == height,
            m.rooms@.len() == 0,
            forall|i: int| 0 <= i < m.tiles@.len() ==> #[trigger] m.tiles@[i] == TileType::Wall,
    {
        proof {
            assert(0 < width * height <= 4096 * 4096) by (nonlinear_arith)
                requires
                    0 < width <= 4096,
                    0 < height <= 4096,
            ;
        }
        let n: usize = (width as usize) * (height as usize);
        let mut tiles: Vec<TileType> = Vec::new();
        let mut i: usize = 0;
        while i < n
            invariant
                tiles@.len() == i,
                i <= n,
                forall|j: int| 0 <= j < i ==> #[trigger] tiles@[j] == TileType::Wall,
            decreases n - i,
        {
            tiles.push(TileType::Wall);
            i += 1;
        }
        GridMap { tiles, rooms: Vec::new(), width, height }
    }

    /// Carve the L-shaped corridor between the centers of two placed rooms,
    /// at the corner picked by `coin`: tiles change only on the corridor's
    /// two runs, only to floor, and afterwards the two centers are joined.
    fn connect_rooms(&mut self, prev: &Rect, new_room: &Rect, coin: i32)
        requires
            old(self).wf(),
            room_placed(*prev, old(self).width as int, old(self).height as int),
            room_placed(*new_room, old(self).width as int, old(self).height as int),
        ensures
            final(self).wf(),
            final(self).width == old(self).width,
            final(self).height == old(self).height,
            final(self).rooms == old(self).rooms,
            forall|i: int|
                0 <= i < final(self).tiles@.len() ==> #[trigger] final(self).tiles@[i]
                    == TileType::Floor || final(self).tiles@[i] == old(self).tiles@[i],
            final(self).l_corridor_floor(prev.center_spec(), new_room.center_spec()),
            forall|xx: int, yy: int|
                final(self).in_bounds(xx, yy) && final(self).tile_at(xx, yy) != old(self).tile_at(
                    xx,
                    yy,
                ) ==> on_l_candidate(prev.center_spec(), new_room.center_spec(), xx, yy),
    {
        let ghost pa = prev.center_spec();
        let ghost pb = new_room.center_spec();
        let cn = new_room.center();
        let cp = prev.center();
        if coin == 1 {
            self.apply_horizontal_tunnel(cp.0, cn.0, cp.1);
            let ghost mid = *self;
            self.apply_vertical_tunnel(cp.1, cn.1, cn.0);
            proof {
                Self::lemma_hrun_preserved(mid, *self, pa.0, pb.0, pa.1);
                assert(self.l_corridor_floor(pa, pb));
                assert forall|xx: int, yy: int|
                    self.in_bounds(xx, yy) && self.tile_at(xx, yy) != old(self).tile_at(
                        xx,
                        yy,
                    ) implies on_l_candidate(pa, pb, xx, yy) by {
                    if self.tile_at(xx, yy) != mid.tile_at(xx, yy) {
                        assert(on_vert_run(pa.1, pb.1, pb.0, xx, yy));
                    } else {
                        assert(on_horiz_run(pa.0, pb.0, pa.1, xx, yy));
                    }
                };
            }
        } else {
            self.apply_vertical_tunnel(cp.1, cn.1, cp.0);
            let ghost mid = *self;
            self.apply_horizontal_tunnel(cp.0, cn.0, cn.1);
            proof {
                Self::lemma_vrun_preserved(mid, *self, pa.1, pb.1, pa.0);
                assert(self.l_corridor_floor(pa, pb));
                assert forall|xx: int, yy: int|
                    self.in_bounds(xx, yy) && self.tile_at(xx, yy) != old(self).tile_at(
                        xx,
                        yy,
                    ) implies on_l_candidate(pa, pb, xx, yy) by {
                    if self.tile_at(xx, yy) != mid.tile_at(xx, yy) {
                        assert(on_horiz_run(pa.0, pb.0, pb.1, xx, yy));
                    } else {
                        assert(on_vert_run(pa.1, pb.1, pa.0, xx, yy));
                    }
                };
            }
        }
    }

    /// The generator proper: up to 30 sampled rooms, overlap rejection,
    /// carving, and an L-shaped corridor from each accepted room to the one
    /// accepted just before it.
    #[verifier::rlimit(100)]
    fn build_rooms_and_corridors(rng: &mut rltk::RandomNumberGenerator) -> (m: GridMap)
        ensures
            m.generated(),
    {
        let mut map = GridMap::new_blank(80, 50);
        proof {
            assert forall|x: int, y: int| map.in_bounds(x, y) implies #[trigger] map.tile_at(x, y)
                == TileType::Wall by {
                map.lemma_idx_in_range(x, y);
            };
        }
        let mut attempt: i32 = 0;
        while attempt < 30
            invariant
                map.wf(),
                map.width == 80,
                map.height == 50,
                0 <= attempt <= 30,
                map.rooms@.len() <= attempt,
                1 <= attempt ==> 1 <= map.rooms@.len(),
                forall|k: int|
                    0 <= k < map.rooms@.len() ==> room_placed(#[trigger] map.rooms@[k], 80, 50),
                forall|k: int| 0 <= k < map.rooms@.len() ==> room_sampled_size(
                    #[trigger] map.rooms@[k],
                ),
                forall|a: int, b: int|
                    #![trigger map.rooms@[a], map.rooms@[b]]
                    0 <= a < map.rooms@.len() && 0 <= b < map.rooms@.len() && a != b
                        ==> !map.rooms@[a].overlaps(map.rooms@[b]),
                forall|k: int| 0 <= k < map.rooms@.len() ==> map.room_interior_floor(
                    #[trigger] map.rooms@[k],
                ),
                forall|i: int|
                    1 <= i < map.rooms@.len() ==> map.l_corridor_floor(
                        map.rooms@[i - 1].center_spec(),
                        (#[trigger] map.rooms@[i]).center_spec(),
                    ),
                forall|x: int, y: int|
                    map.in_bounds(x, y) && #[trigger] map.tile_at(x, y) == TileType::Floor
                        ==> map.tile_carved(x, y),
            decreases 30 - attempt,
        {
            let w = rng_range(rng, 6, 10);
            let h = rng_range(rng, 6, 10);
            let x = rng_roll_dice(rng, 1, 80 - w - 1) - 1;
            let y = rng_roll_dice(rng, 1, 50 - h - 1) - 1;
            let new_room = Rect::new(x, y, w, h);
            let mut ok = true;
            let mut j: usize = 0;
            while j < map.rooms.len()
                invariant
                    j <= map.rooms@.len(),
                    ok <==> forall|k: int|
                        0 <= k < j ==> !new_room.overlaps(#[trigger] map.rooms@[k]),
                decreases map.rooms@.len() - j,
            {
                if new_room.intersect(&map.rooms[j]) {
                    ok = false;
                }
                j += 1;
            }
            if ok {
                let ghost m0 = map;
                map.apply_room_to_map(&new_room);
                proof {
                    Self::lemma_rooms_floor_preserved(m0, map);
                    Self::lemma_corridors_floor_preserved(m0, map);
                }
                let ghost m_room = map;
                if map.rooms.len() > 0 {
                    let prev_room = map.rooms[map.rooms.len() - 1];
                    let coin = rng_range(rng, 0, 2);
                    map.connect_rooms(&prev_room, &new_room, coin);
                    proof {
                        Self::lemma_rooms_floor_preserved(m_room, map);
                        Self::lemma_floor_preserved(m_room, map, new_room);
                        Self::lemma_corridors_floor_preserved(m_room, map);
                    }
                }
                let ghost m3 = map;
                map.rooms.push(new_room);
                proof {
                    let ln = map.rooms@.len() as int;
                    assert forall|k: int| 0 <= k < ln implies map.room_interior_floor(
                        #[trigger] map.rooms@[k],
                    ) by {
                        let r = map.rooms@[k];
                        if k == ln - 1 {
                            assert(m3.room_interior_floor(new_room));
                        } else {
                            assert(m3.room_interior_floor(r));
                        }
                        assert forall|xx: int, yy: int|
                            r.x1 < xx <= r.x2 && r.y1 < yy <= r.y2 implies #[trigger] map.tile_at(
                            xx,
                            yy,
                        ) == TileType::Floor by {
                            assert(m3.tile_at(xx, yy) == TileType::Floor);
                        };
                    };
                    assert forall|i: int| 1 <= i < ln implies map.l_corridor_floor(
                        map.rooms@[i - 1].center_spec(),
                        (#[trigger] map.rooms@[i]).center_spec(),
                    ) by {
                        if i < ln - 1 {
                            Self::lemma_corridor_preserved(
                                m3,
                                map,
                                m3.rooms@[i - 1].center_spec(),
                                m3.rooms@[i].center_spec(),
                            );
                        } else {
                            let pa = m3.rooms@[i - 1].center_spec();
                            let pb = new_room.center_spec();
                            assert(m3.l_corridor_floor(pa, pb));
                            Self::lemma_corridor_preserved(m3, map, pa, pb);
                        }
                    };
                    assert forall|xx: int, yy: int|
                        map.in_bounds(xx, yy) && #[trigger] map.tile_at(xx, yy) == TileType::Floor
                            implies map.tile_carved(xx, yy) by {
                        assert(map.tile_at(xx, yy) == m3.tile_at(xx, yy));
                        if m0.tile_at(xx, yy) == TileType::Floor {
                            assert(m0.tile_carved(xx, yy));
                            Self::lemma_carved_monotone(m0, map, xx, yy);
                        } else {
                            if in_room_interior(new_room, xx, yy) {
                                assert(in_room_interior(map.rooms@[ln - 1], xx, yy));
                            } else {
                                assert(m_room.tile_at(xx, yy) == m0.tile_at(xx, yy));
                                assert(m3.tile_at(xx, yy) != m_room.tile_at(xx, yy));
                                assert(m0.rooms@.len() > 0);
                                let pa = m0.rooms@[m0.rooms@.len() - 1].center_spec();
                                let pb = new_room.center_spec();
                                assert(on_l_candidate(pa, pb, xx, yy));
                                assert(pa == map.rooms@[ln - 2].center_spec());
                                assert(pb == (map.rooms@[ln - 1]).center_spec());
                                assert(1 <= ln - 1 < ln && on_l_candidate(
                                    map.rooms@[ln - 1 - 1].center_spec(),
                                    (map.rooms@[ln - 1]).center_spec(),
                                    xx,
                                    yy,
                                ));
                            }
                        }
                    };
                }
            }
            attempt += 1;
        }
        map
    }

    /// Generate a map from an entropy-seeded randomness source.
    pub fn new_map_rooms_and_corridors() -> (m: GridMap)
        ensures
            m.generated(),
    {
        let mut rng = rng_new();
        GridMap::build_rooms_and_corridors(&mut rng)
    }

    /// Generate a map from the given seed. The randomness source is a pure
    /// function of its seed, so one seed always yields one map.
    pub fn new_map_rooms_and_corridors_seeded(seed: u64) -> (m: GridMap)
        ensures
            m.generated(),
    {
        let mut rng = rng_seeded(seed);
        GridMap::build_rooms_and_corridors(&mut rng)
    }

    /// The center of any accepted room of a generated map is an in-bounds
    /// floor tile, so it is always a safe spawn point.
    pub proof fn lemma_spawn_tile_is_floor(self, k: int)
        requires
            self.generated(),
            0 <= k < self.rooms@.len(),
        ensures
            self.in_bounds(self.rooms@[k].center_spec().0, self.rooms@[k].center_spec().1),
            self.tile_at(self.rooms@[k].center_spec().0, self.rooms@[k].center_spec().1)
                == TileType::Floor,
    {
        let r = self.rooms@[k];
        r.lemma_center_in_interior();
    }
}

/// The per-tile draw list: for each tile index in row-major order, the
/// decoded coordinates and the glyph of the tile there.
pub fn draw_cells(map: &GridMap) -> (cells: Vec<(i32, i32, u8)>)
    requires
        map.wf(),
    ensures
        cells@.len() == map.tiles@.len(),
        forall|i: int|
            0 <= i < cells@.len() ==> #[trigger] cells@[i] == (
                ((i % (map.width as int)) as i32),
                ((i / (map.width as int)) as i32),
                glyph_spec(map.tiles@[i]),
            ),
{
    let mut cells: Vec<(i32, i32, u8)> = Vec::new();
    let mut x: i32 = 0;
    let mut y: i32 = 0;
    let mut i: usize = 0;
    while i < map.tiles.len()
        invariant
            cells@.len() == i,
            i <= map.tiles@.len(),
            0 <= x < map.width,
            0 <= y <= map.height,
            i == y * map.width + x,
            forall|j: int|
                0 <= j < i ==> #[trigger] cells@[j] == (
                    ((j % (map.width as int)) as i32),
                    ((j / (map.width as int)) as i32),
                    glyph_spec(map.tiles@[j]),
                ),
        decreases map.tiles@.len() - i,
    {
        let t = map.tiles[i];
        cells.push((x, y, tile_glyph(t)));
        proof {
            lemma_fundamental_div_mod_converse(i as int, map.width as int, y as int, x as int);
        }
        x += 1;
        if x > map.width - 1 {
            proof {
                assert(y < map.height) by (nonlinear_arith)
                    requires
                        i < map.width * map.height,
                        i + 1 == y * map.width + x,
                        x == map.width,
                        0 < map.width,
                        0 <= y,
                ;
                assert((y + 1) * map.width == y * map.width + map.width) by (nonlinear_arith);
            }
            x = 0;
            y += 1;
        }
        i += 1;
    }
    cells
}

} // verus!
