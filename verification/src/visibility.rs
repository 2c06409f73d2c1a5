use vstd::prelude::*;
use crate::components::{Position, Viewshed};
use crate::map::GridMap;

verus! {

broadcast use vstd::seq_lib::lemma_seq_contains_after_push;

pub open spec fn abs_val(a: int) -> int {
    if a < 0 {
        -a
    } else {
        a
    }
}

pub open spec fn max_val(a: int, b: int) -> int {
    if a < b {
        b
    } else {
        a
    }
}

/// Squared Euclidean distance between two grid points.
pub open spec fn dist2(ox: int, oy: int, tx: int, ty: int) -> int {
    (tx - ox) * (tx - ox) + (ty - oy) * (ty - oy)
}

/// The discrete sight line between two cells: a cell lies on it when it is
/// inside the bounding box of the endpoints and its center is within half a
/// cell of the ideal straight segment, measured by the cross product against
/// the segment's direction. The definition is symmetric in the endpoints.
pub open spec fn on_sight_line(ox: int, oy: int, tx: int, ty: int, px: int, py: int) -> bool {
    let dx = tx - ox;
    let dy = ty - oy;
    &&& (if ox <= tx {
        ox <= px <= tx
    } else {
        tx <= px <= ox
    })
    &&& (if oy <= ty {
        oy <= py <= ty
    } else {
        ty <= py <= oy
    })
    &&& 2 * abs_val((px - ox) * dy - (py - oy) * dx) <= max_val(abs_val(dx), abs_val(dy))
}

/// A cell of the sight line other than its two endpoints.
pub open spec fn strictly_between(ox: int, oy: int, tx: int, ty: int, px: int, py: int) -> bool {
    &&& on_sight_line(ox, oy, tx, ty, px, py)
    &&& !(px == ox && py == oy)
    &&& !(px == tx && py == ty)
}

/// Sight from one cell to another is blocked when a wall stands strictly
/// between them on the sight line.
pub open spec fn sight_blocked(m: GridMap, ox: int, oy: int, tx: int, ty: int) -> bool {
    exists|px: int, py: int|
        #[trigger] strictly_between(ox, oy, tx, ty, px, py) && m.is_wall_at(px, py)
}

/// A tile is visible from an origin within a range iff both cells are on the
/// grid, the tile is within `range` (Euclidean), and no wall stands strictly
/// between the two on the sight line. An entity's own tile is visible.
pub open spec fn tile_visible(m: GridMap, ox: int, oy: int, range: int, tx: int, ty: int) -> bool {
    &&& m.in_bounds(ox, oy)
    &&& m.in_bounds(tx, ty)
    &&& 0 <= range
    &&& dist2(ox, oy, tx, ty) <= range * range
    &&& !sight_blocked(m, ox, oy, tx, ty)
}

/// Whether no wall stands strictly between two in-bounds cells.
pub fn line_clear(map: &GridMap, ox: i32, oy: i32, tx: i32, ty: i32) -> (r: bool)
    requires
        map.wf(),
        map.in_bounds(ox as int, oy as int),
        map.in_bounds(tx as int, ty as int),
    ensures
        r == !sight_blocked(*map, ox as int, oy as int, tx as int, ty as int),
{
    let x_lo = if ox < tx {
        ox
    } else {
        tx
    };
    let x_hi = if ox < tx {
        tx
    } else {
        ox
    };
    let y_lo = if oy < ty {
        oy
    } else {
        ty
    };
    let y_hi = if oy < ty {
        ty
    } else {
        oy
    };
    let dx = tx - ox;
    let dy = ty - oy;
    let adx = if dx < 0 {
        -dx
    } else {
        dx
    };
    let ady = if dy < 0 {
        -dy
    } else {
        dy
    };
    let lim = if adx < ady {
        ady
    } else {
        adx
    };
    let mut px = x_lo;
    while px <= x_hi
        invariant
            x_lo <= px <= x_hi + 1,
            forall|qx: int, qy: int|
                x_lo <= qx < px && #[trigger] strictly_between(
                    ox as int,
                    oy as int,
                    tx as int,
                    ty as int,
                    qx,
                    qy,
                ) ==> !map.is_wall_at(qx, qy),
        decreases x_hi + 1 - px,
    {
        let mut py = y_lo;
        while py <= y_hi
            invariant
                y_lo <= py <= y_hi + 1,
                x_lo <= px <= x_hi,
                forall|qy: int|
                    y_lo <= qy < py && #[trigger] strictly_between(
                        ox as int,
                        oy as int,
                        tx as int,
                        ty as int,
                        px as int,
                        qy,
                    ) ==> !map.is_wall_at(px as int, qy),
            decreases y_hi + 1 - py,
        {
            proof {
                assert(-0x1000000 <= (px - ox) * dy <= 0x1000000 && -0x1000000 <= (py - oy) * dx
                    <= 0x1000000) by (nonlinear_arith)
                    requires
                        -4096 <= px - ox <= 4096,
                        -4096 <= dy <= 4096,
                        -4096 <= py - oy <= 4096,
                        -4096 <= dx <= 4096,
                ;
            }
            let cross = (px - ox) * dy - (py - oy) * dx;
            let acr = if cross < 0 {
                -cross
            } else {
                cross
            };
            let at_origin = px == ox && py == oy;
            let at_target = px == tx && py == ty;
            if !at_origin && !at_target && 2 * acr <= lim {
                let idx = map.xy_idx(px, py);
                if map.is_opaque(idx) {
                    proof {
                        assert(strictly_between(
                            ox as int,
                            oy as int,
                            tx as int,
                            ty as int,
                            px as int,
                            py as int,
                        ) && map.is_wall_at(px as int, py as int));
                    }
                    return false;
                }
            }
            py += 1;
        }
        px += 1;
    }
    proof {
        assert forall|qx: int, qy: int|
            #[trigger] strictly_between(
                ox as int,
                oy as int,
                tx as int,
                ty as int,
                qx,
                qy,
            ) implies !map.is_wall_at(qx, qy) by {}
    }
    true
}

/// A tile within `range` of the origin lies in the square of side `2 * range`
/// around it.
proof fn lemma_dist_component_bound(ox: int, oy: int, tx: int, ty: int, range: int)
    requires
        0 <= range,
        dist2(ox, oy, tx, ty) <= range * range,
    ensures
        ox - range <= tx <= ox + range,
        oy - range <= ty <= oy + range,
{
    assert(ox - range <= tx <= ox + range && oy - range <= ty <= oy + range) by (nonlinear_arith)
        requires
            0 <= range,
            (tx - ox) * (tx - ox) + (ty - oy) * (ty - oy) <= range * range,
    ;
}

/// The field of view: exactly those tiles that are visible from the origin
/// within the given range, recomputed from scratch. Total in `range`: a
/// negative range sees nothing, and any range beyond the grid's diameter
/// sees the same tiles as one that just covers it, so the scan is clamped.
pub fn field_of_view(map: &GridMap, ox: i32, oy: i32, range: i32) -> (tiles: Vec<(i32, i32)>)
    requires
        map.wf(),
    ensures
        forall|px: i32, py: i32|
            tiles@.contains((px, py)) <==> tile_visible(
                *map,
                ox as int,
                oy as int,
                range as int,
                px as int,
                py as int,
            ),
{
    let mut out: Vec<(i32, i32)> = Vec::new();
    if range < 0 {
        return out;
    }
    if !(0 <= ox && ox < map.width && 0 <= oy && oy < map.height) {
        return out;
    }
    let r_eff = if range > 8192 {
        8192
    } else {
        range
    };
    let x_lo = if ox - r_eff > 0 {
        ox - r_eff
    } else {
        0
    };
    let x_hi = if ox + r_eff < map.width - 1 {
        ox + r_eff
    } else {
        map.width - 1
    };
    let y_lo = if oy - r_eff > 0 {
        oy - r_eff
    } else {
        0
    };
    let y_hi = if oy + r_eff < map.height - 1 {
        oy + r_eff
    } else {
        map.height - 1
    };
    let mut tx = x_lo;
    while tx <= x_hi
        invariant
            x_lo <= tx <= x_hi + 1,
            forall|qx: i32, qy: i32|
                out@.contains((qx, qy)) ==> tile_visible(
                    *map,
                    ox as int,
                    oy as int,
                    range as int,
                    qx as int,
                    qy as int,
                ),
            forall|qx: i32, qy: i32|
                x_lo <= qx < tx && #[trigger] tile_visible(
                    *map,
                    ox as int,
                    oy as int,
                    range as int,
                    qx as int,
                    qy as int,
                ) ==> out@.contains((qx, qy)),
        decreases x_hi + 1 - tx,
    {
        let mut ty = y_lo;
        while ty <= y_hi
            invariant
                y_lo <= ty <= y_hi + 1,
                x_lo <= tx <= x_hi,
                forall|qx: i32, qy: i32|
                    out@.contains((qx, qy)) ==> tile_visible(
                        *map,
                        ox as int,
                        oy as int,
                        range as int,
                        qx as int,
                        qy as int,
                    ),
                forall|qx: i32, qy: i32|
                    x_lo <= qx < tx && #[trigger] tile_visible(
                        *map,
                        ox as int,
                        oy as int,
                        range as int,
                        qx as int,
                        qy as int,
                    ) ==> out@.contains((qx, qy)),
                forall|qy: i32|
                    y_lo <= qy < ty && #[trigger] tile_visible(
                        *map,
                        ox as int,
                        oy as int,
                        range as int,
                        tx as int,
                        qy as int,
                    ) ==> out@.contains((tx, qy)),
            decreases y_hi + 1 - ty,
        {
            let ddx = tx - ox;
            let ddy = ty - oy;
            proof {
                assert(0 <= ddx * ddx <= 0x1000000 && 0 <= ddy * ddy <= 0x1000000 && 0 <= r_eff
                    * r_eff <= 0x4000000) by (nonlinear_arith)
                    requires
                        -4096 <= ddx <= 4096,
                        -4096 <= ddy <= 4096,
                        0 <= r_eff <= 8192,
                ;
                if range > 8192 {
                    assert(ddx * ddx + ddy * ddy <= 8192 * 8192 && ddx * ddx + ddy * ddy <= range
                        * range) by (nonlinear_arith)
                        requires
                            -4096 <= ddx <= 4096,
                            -4096 <= ddy <= 4096,
                            8192 < range,
                    ;
                }
            }
            let d2 = ddx * ddx + ddy * ddy;
            if d2 <= r_eff * r_eff {
                if line_clear(map, ox, oy, tx, ty) {
                    out.push((tx, ty));
                }
            }
            ty += 1;
        }
        proof {
            assert forall|qy: i32|
                #[trigger] tile_visible(
                    *map,
                    ox as int,
                    oy as int,
                    range as int,
                    tx as int,
                    qy as int,
                ) implies out@.contains((tx, qy)) by {
                if range <= 8192 {
                    lemma_dist_component_bound(
                        ox as int,
                        oy as int,
                        tx as int,
                        qy as int,
                        range as int,
                    );
                }
            }
        }
        tx += 1;
    }
    proof {
        assert forall|qx: i32, qy: i32|
            #[trigger] tile_visible(
                *map,
                ox as int,
                oy as int,
                range as int,
                qx as int,
                qy as int,
            ) implies out@.contains((qx, qy)) by {
            if range <= 8192 {
                lemma_dist_component_bound(
                    ox as int,
                    oy as int,
                    qx as int,
                    qy as int,
                    range as int,
                );
            }
        }
    }
    out
}

/// The visibility stage for one entity: recompute its viewshed from scratch
/// from its position, its range, and the map's walls.
pub fn recompute_viewshed(map: &GridMap, pos: &Position, viewshed: &mut Viewshed)
    requires
        map.wf(),
    ensures
        final(viewshed).range == old(viewshed).range,
        forall|px: i32, py: i32|
            final(viewshed).visible_tiles@.contains((px, py)) <==> tile_visible(
                *map,
                pos.x as int,
                pos.y as int,
                final(viewshed).range as int,
                px as int,
                py as int,
            ),
{
    let tiles = field_of_view(map, pos.x, pos.y, viewshed.range);
    viewshed.visible_tiles = tiles;
}

/// Widening the range never removes a visible tile: visibility is monotone
/// in `range` when position and map are held fixed.
pub proof fn lemma_visibility_monotonic(
    m: GridMap,
    ox: int,
    oy: int,
    tx: int,
    ty: int,
    r1: int,
    r2: int,
)
    requires
        r1 <= r2,
        tile_visible(m, ox, oy, r1, tx, ty),
    ensures
        tile_visible(m, ox, oy, r2, tx, ty),
{
    assert(r1 * r1 <= r2 * r2) by (nonlinear_arith)
        requires
            0 <= r1 <= r2,
    ;
}

/// Every visible tile is within `range` and has no wall strictly between it
/// and the origin on the sight line.
pub proof fn lemma_visibility_sound(m: GridMap, ox: int, oy: int, range: int, tx: int, ty: int)
    requires
        tile_visible(m, ox, oy, range, tx, ty),
    ensures
        m.in_bounds(tx, ty),
        dist2(ox, oy, tx, ty) <= range * range,
        forall|px: int, py: int|
            #[trigger] strictly_between(ox, oy, tx, ty, px, py) ==> !m.is_wall_at(px, py),
{
}

/// With range zero an entity sees exactly its own tile (when it stands on
/// the grid at all).
pub proof fn lemma_range_zero(m: GridMap, ox: int, oy: int, tx: int, ty: int)
    ensures
        tile_visible(m, ox, oy, 0, tx, ty) <==> (m.in_bounds(ox, oy) && tx == ox && ty == oy),
{
    if tile_visible(m, ox, oy, 0, tx, ty) {
        assert(tx == ox && ty == oy) by (nonlinear_arith)
            requires
                (tx - ox) * (tx - ox) + (ty - oy) * (ty - oy) <= 0,
        ;
    }
    if m.in_bounds(ox, oy) && tx == ox && ty == oy {
        assert(dist2(ox, oy, tx, ty) <= 0);
        if sight_blocked(m, ox, oy, tx, ty) {
            let (px, py) = choose|px: int, py: int|
                #[trigger] strictly_between(ox, oy, tx, ty, px, py) && m.is_wall_at(px, py);
            assert(false);
        }
    }
}

} // verus!

