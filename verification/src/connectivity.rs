use vstd::prelude::*;
use crate::map::{in_room_interior, GridMap, TileType};

verus! {

/// Two cells sharing an edge.
pub open spec fn adjacent(a: (int, int), b: (int, int)) -> bool {
    ||| (a.0 == b.0 && (a.1 == b.1 + 1 || a.1 + 1 == b.1))
    ||| (a.1 == b.1 && (a.0 == b.0 + 1 || a.0 + 1 == b.0))
}

/// A walk over in-bounds floor tiles, each step to an edge-adjacent cell.
pub open spec fn floor_path(m: GridMap, s: Seq<(int, int)>) -> bool {
    &&& s.len() >= 1
    &&& forall|i: int|
        0 <= i < s.len() ==> m.in_bounds((#[trigger] s[i]).0, s[i].1) && m.tile_at(s[i].0, s[i].1)
            == TileType::Floor
    &&& forall|i: int| 0 <= i < s.len() - 1 ==> adjacent(#[trigger] s[i], s[i + 1])
}

/// Two cells joined by some walk over floor tiles.
pub open spec fn floor_connected(m: GridMap, a: (int, int), b: (int, int)) -> bool {
    exists|s: Seq<(int, int)>| #[trigger] floor_path(m, s) && s[0] == a && s[s.len() - 1] == b
}

proof fn lemma_connected_refl(m: GridMap, a: (int, int))
    requires
        m.in_bounds(a.0, a.1),
        m.tile_at(a.0, a.1) == TileType::Floor,
    ensures
        floor_connected(m, a, a),
{
    let s = seq![a];
    assert(floor_path(m, s) && s[0] == a && s[s.len() - 1] == a);
}

proof fn lemma_connected_step(m: GridMap, a: (int, int), b: (int, int), c: (int, int))
    requires
        floor_connected(m, a, b),
        adjacent(b, c),
        m.in_bounds(c.0, c.1),
        m.tile_at(c.0, c.1) == TileType::Floor,
    ensures
        floor_connected(m, a, c),
{
    let s = choose|s: Seq<(int, int)>| #[trigger] floor_path(m, s) && s[0] == a && s[s.len() - 1]
        == b;
    let s2 = s.push(c);
    assert forall|i: int| 0 <= i < s2.len() - 1 implies adjacent(#[trigger] s2[i], s2[i + 1]) by {
        if i < s.len() - 1 {
            assert(s2[i] == s[i] && s2[i + 1] == s[i + 1]);
        } else {
            assert(s2[i] == b && s2[i + 1] == c);
        }
    };
    assert(floor_path(m, s2) && s2[0] == a && s2[s2.len() - 1] == c);
}

proof fn lemma_connected_trans(m: GridMap, a: (int, int), b: (int, int), c: (int, int))
    requires
        floor_connected(m, a, b),
        floor_connected(m, b, c),
    ensures
        floor_connected(m, a, c),
{
    let s1 = choose|s: Seq<(int, int)>| #[trigger] floor_path(m, s) && s[0] == a && s[s.len() - 1]
        == b;
    let s2 = choose|s: Seq<(int, int)>| #[trigger] floor_path(m, s) && s[0] == b && s[s.len() - 1]
        == c;
    if s2.len() == 1 {
        assert(floor_path(m, s1) && s1[0] == a && s1[s1.len() - 1] == c);
    } else {
        let t = s1 + s2.subrange(1, s2.len() as int);
        assert forall|i: int|
            0 <= i < t.len() implies m.in_bounds((#[trigger] t[i]).0, t[i].1) && m.tile_at(
            t[i].0,
            t[i].1,
        ) == TileType::Floor by {
            if i < s1.len() {
                assert(t[i] == s1[i]);
            } else {
                assert(t[i] == s2[i - s1.len() + 1]);
            }
        };
        assert forall|i: int| 0 <= i < t.len() - 1 implies adjacent(#[trigger] t[i], t[i + 1]) by {
            if i + 1 < s1.len() {
                assert(t[i] == s1[i] && t[i + 1] == s1[i + 1]);
            } else if i + 1 == s1.len() {
                assert(t[i] == s1[i] && s1[i] == b && t[i + 1] == s2[1]);
                assert(adjacent(s2[0], s2[1]));
            } else {
                assert(t[i] == s2[i - s1.len() + 1] && t[i + 1] == s2[i - s1.len() + 2]);
                assert(adjacent(s2[i - s1.len() + 1], s2[i - s1.len() + 2]));
            }
        };
        assert(floor_path(m, t) && t[0] == a && t[t.len() - 1] == c);
    }
}

/// A carved horizontal run joins its two ends.
proof fn lemma_hrun_connected(m: GridMap, xa: int, xb: int, y: int)
    requires
        m.wf(),
        m.in_bounds(xa, y),
        m.in_bounds(xb, y),
        m.horiz_run_floor(xa, xb, y),
    ensures
        floor_connected(m, (xa, y), (xb, y)),
    decreases (if xa <= xb {
        xb - xa
    } else {
        xa - xb
    }),
{
    if xa == xb {
        lemma_connected_refl(m, (xa, y));
    } else if xa < xb {
        assert(m.horiz_run_floor(xa, xb - 1, y));
        lemma_hrun_connected(m, xa, xb - 1, y);
        lemma_connected_step(m, (xa, y), (xb - 1, y), (xb, y));
    } else {
        assert(m.horiz_run_floor(xa, xb + 1, y));
        lemma_hrun_connected(m, xa, xb + 1, y);
        lemma_connected_step(m, (xa, y), (xb + 1, y), (xb, y));
    }
}

/// A carved vertical run joins its two ends.
proof fn lemma_vrun_connected(m: GridMap, ya: int, yb: int, x: int)
    requires
        m.wf(),
        m.in_bounds(x, ya),
        m.in_bounds(x, yb),
        m.vert_run_floor(ya, yb, x),
    ensures
        floor_connected(m, (x, ya), (x, yb)),
    decreases (if ya <= yb {
        yb - ya
    } else {
        ya - yb
    }),
{
    if ya == yb {
        lemma_connected_refl(m, (x, ya));
    } else if ya < yb {
        assert(m.vert_run_floor(ya, yb - 1, x));
        lemma_vrun_connected(m, ya, yb - 1, x);
        lemma_connected_step(m, (x, ya), (x, yb - 1), (x, yb));
    } else {
        assert(m.vert_run_floor(ya, yb + 1, x));
        lemma_vrun_connected(m, ya, yb + 1, x);
        lemma_connected_step(m, (x, ya), (x, yb + 1), (x, yb));
    }
}

/// Any two cells of one room's carved interior are joined over floor.
proof fn lemma_interior_connected(m: GridMap, r: crate::rect::Rect, a: (int, int), b: (int, int))
    requires
        m.wf(),
        0 <= r.x1,
        r.x2 < m.width,
        0 <= r.y1,
        r.y2 < m.height,
        m.room_interior_floor(r),
        in_room_interior(r, a.0, a.1),
        in_room_interior(r, b.0, b.1),
    ensures
        floor_connected(m, a, b),
{
    assert(m.horiz_run_floor(a.0, b.0, a.1));
    assert(m.vert_run_floor(a.1, b.1, b.0));
    lemma_hrun_connected(m, a.0, b.0, a.1);
    lemma_vrun_connected(m, a.1, b.1, b.0);
    lemma_connected_trans(m, a, (b.0, a.1), b);
}

/// A carved L-corridor joins its two endpoints over floor.
proof fn lemma_corridor_connected(m: GridMap, pa: (int, int), pb: (int, int))
    requires
        m.wf(),
        m.in_bounds(pa.0, pa.1),
        m.in_bounds(pb.0, pb.1),
        m.l_corridor_floor(pa, pb),
    ensures
        floor_connected(m, pa, pb),
{
    if m.horiz_run_floor(pa.0, pb.0, pa.1) && m.vert_run_floor(pa.1, pb.1, pb.0) {
        lemma_hrun_connected(m, pa.0, pb.0, pa.1);
        lemma_vrun_connected(m, pa.1, pb.1, pb.0);
        lemma_connected_trans(m, pa, (pb.0, pa.1), pb);
    } else {
        lemma_vrun_connected(m, pa.1, pb.1, pa.0);
        lemma_hrun_connected(m, pa.0, pb.0, pb.1);
        lemma_connected_trans(m, pa, (pa.0, pb.1), pb);
    }
}

/// A generated map is fully connected and playable: every tile of every
/// accepted room's interior is reachable over floor tiles, stepping between
/// edge-adjacent cells, from the first accepted room's center — the spawn
/// point.
pub proof fn lemma_generated_connected(m: GridMap, k: int, x: int, y: int)
    requires
        m.generated(),
        0 <= k < m.rooms@.len(),
        in_room_interior(m.rooms@[k], x, y),
    ensures
        floor_connected(m, m.rooms@[0].center_spec(), (x, y)),
    decreases k,
{
    let rk = m.rooms@[k];
    rk.lemma_center_in_interior();
    if k == 0 {
        lemma_interior_connected(m, rk, rk.center_spec(), (x, y));
    } else {
        let rp = m.rooms@[k - 1];
        rp.lemma_center_in_interior();
        lemma_generated_connected(m, k - 1, rp.center_spec().0, rp.center_spec().1);
        lemma_corridor_connected(m, rp.center_spec(), rk.center_spec());
        lemma_interior_connected(m, rk, rk.center_spec(), (x, y));
        lemma_connected_trans(m, m.rooms@[0].center_spec(), rp.center_spec(), rk.center_spec());
        lemma_connected_trans(m, m.rooms@[0].center_spec(), rk.center_spec(), (x, y));
    }
}

} // verus!
