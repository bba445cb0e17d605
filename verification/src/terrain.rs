//! Terrain and footprint helpers of the chassis: box overlap between
//! records, the perimeter-minimum ground, the gated 3×3 floor
//! smoother, the cave seal, the retile and paint queues, and the
//! record free.

use vstd::prelude::*;
use crate::pool::{Ent, Gen, F_REAPED, tile, tile_spec, tile_at_spec, w8, wdiff, wrap_diff};

verus! {

/// Is tile type `ty` building material (the smoother's veto set)?
pub open spec fn building_material(ty: u8) -> bool {
    6 <= ty <= 0x22
}

/// The absolute value of a torus difference.
pub open spec fn abs_diff(a: u16, b: u16) -> int {
    let d = wrap_diff(a, b);
    if d < 0 {
        -d
    } else {
        d
    }
}


/// The heights after the gated 3×3 smoother at (x, y) (see
/// [`Gen::mc2_smooth_pad_edge`]), over heights `h` and tile types `tt`.
pub open spec fn smoothed(h: Seq<u8>, tt: Seq<u8>, x: u8, y: u8) -> Seq<u8> {
    let at = |a: u8, b: u8| h[tile_spec(a, b)] as int;
    let veto = building_material(tt[tile_spec(w8(x - 1), w8(y - 1))])
        || building_material(tt[tile_spec(w8(x + 1), w8(y - 1))])
        || building_material(tt[tile_spec(w8(x - 1), w8(y + 1))])
        || building_material(tt[tile_spec(w8(x + 1), w8(y + 1))]);
    let sum = at(w8(x - 1), w8(y - 1)) + at(x, w8(y - 1)) + at(w8(x + 1), w8(y - 1)) + at(w8(x - 1), y) + at(x, y)
        + at(w8(x + 1), y) + at(w8(x - 1), w8(y + 1)) + at(x, w8(y + 1)) + at(w8(x + 1), w8(y + 1));
    if veto {
        h
    } else {
        h.update(tile_spec(x, y), (sum / 9) as u8)
    }
}

/// The heights after smoothing the first `c` tiles of row `gy` from
/// column `x` (wrapping), left to right.
pub open spec fn smoothed_row(h: Seq<u8>, tt: Seq<u8>, x: u8, gy: u8, c: int) -> Seq<u8>
    decreases c,
{
    if c <= 0 {
        h
    } else {
        smoothed(smoothed_row(h, tt, x, gy, c - 1), tt, w8(x + c - 1), gy)
    }
}

/// The heights after smoothing the first `r` rows of a `cols`-wide
/// region from (x, y), row by row (wrapping).
pub open spec fn smoothed_region(h: Seq<u8>, tt: Seq<u8>, x: u8, y: u8, cols: int, r: int) -> Seq<u8>
    decreases r,
{
    if r <= 0 {
        h
    } else {
        smoothed_row(smoothed_region(h, tt, x, y, cols, r - 1), tt, x, w8(y + r - 1), cols)
    }
}

impl Gen {
    /// Do the boxes of records `i` and `j` overlap in the plane
    /// (strictly, by their half-extents f80/f82)?
    pub open spec fn overlap_spec(&self, i: int, j: int) -> bool {
        let a = self.ent[i];
        let b = self.ent[j];
        &&& abs_diff(a.x, b.x) < a.f80 as int + b.f80 as int
        &&& abs_diff(a.y, b.y) < a.f82 as int + b.f82 as int
    }

    /// Do the boxes of records `i` and `j` overlap in the plane?
    pub fn ent_overlap(&self, i: usize, j: usize) -> (r: bool)
        requires
            i < self.ent.len(),
            j < self.ent.len(),
        ensures
            r == self.overlap_spec(i as int, j as int),
    {
        let a = self.ent[i];
        let b = self.ent[j];
        let dx = wdiff(a.x, b.x);
        let dy = wdiff(a.y, b.y);
        let adx = if dx < 0 { -dx } else { dx };
        let ady = if dy < 0 { -dy } else { dy };
        adx < a.f80 as i32 + b.f80 as i32 && ady < a.f82 as i32 + b.f82 as i32
    }

    /// The tile height at (gx, gy).
    pub open spec fn h_spec(&self, gx: u8, gy: u8) -> int {
        self.t.height[tile_spec(gx, gy)] as int
    }

    /// Is (dx, dy) on the border of a w×h rectangle?
    pub open spec fn on_rim(dx: int, dy: int, w: int, h: int) -> bool {
        dx == 0 || dy == 0 || dx == w - 1 || dy == h - 1
    }

    /// The lowest tile height on the border ring of the w×h rectangle
    /// with its NW corner at (tlx, tly) (tile coordinates wrap); 0 for
    /// an empty rectangle.
    pub fn mc2_perimeter_min(&self, tlx: u8, tly: u8, w: u16, h: u16) -> (m: i32)
        requires
            self.wf(),
        ensures
            0 <= m <= 255,
            w == 0 || h == 0 ==> m == 0,
            w > 0 && h > 0 ==> {
                &&& forall|dx: int, dy: int|
                    0 <= dx < w && 0 <= dy < h && Self::on_rim(dx, dy, w as int, h as int) ==> m
                        <= #[trigger] self.h_spec(w8(tlx + dx), w8(tly + dy))
                &&& exists|dx: int, dy: int|
                    0 <= dx < w && 0 <= dy < h && Self::on_rim(dx, dy, w as int, h as int) && m
                        == #[trigger] self.h_spec(w8(tlx + dx), w8(tly + dy))
            },
    {
        if w == 0 || h == 0 {
            return 0;
        }
        let mut m: i32 = self.t.height[tile(tlx, tly)] as i32;
        assert(w8(tlx + 0) == tlx && w8(tly + 0) == tly);
        assert(Self::on_rim(0, 0, w as int, h as int));
        assert(m == self.h_spec(w8(tlx + 0), w8(tly + 0)));
        let mut dy: u16 = 0;
        while dy < h
            invariant
                self.wf(),
                w > 0,
                h > 0,
                dy <= h,
                0 <= m <= 255,
                forall|ex: int, ey: int|
                    0 <= ex < w && 0 <= ey < dy && Self::on_rim(ex, ey, w as int, h as int) ==> m
                        <= #[trigger] self.h_spec(w8(tlx + ex), w8(tly + ey)),
                exists|ex: int, ey: int|
                    0 <= ex < w && 0 <= ey < h && Self::on_rim(ex, ey, w as int, h as int) && m
                        == #[trigger] self.h_spec(w8(tlx + ex), w8(tly + ey)),
            decreases h - dy,
        {
            let mut dx: u16 = 0;
            while dx < w
                invariant
                    self.wf(),
                    w > 0,
                    h > 0,
                    dy < h,
                    dx <= w,
                    0 <= m <= 255,
                    forall|ex: int, ey: int|
                        0 <= ex < w && 0 <= ey < dy && Self::on_rim(ex, ey, w as int, h as int)
                            ==> m <= #[trigger] self.h_spec(w8(tlx + ex), w8(tly + ey)),
                    forall|ex: int|
                        0 <= ex < dx && Self::on_rim(ex, dy as int, w as int, h as int) ==> m
                            <= #[trigger] self.h_spec(w8(tlx + ex), w8(tly + dy)),
                    exists|ex: int, ey: int|
                        0 <= ex < w && 0 <= ey < h && Self::on_rim(ex, ey, w as int, h as int)
                            && m == #[trigger] self.h_spec(w8(tlx + ex), w8(tly + ey)),
                decreases w - dx,
            {
                if dx == 0 || dy == 0 || dx + 1 == w || dy + 1 == h {
                    let gx = ((tlx as u32 + dx as u32) % 256) as u8;
                    let gy = ((tly as u32 + dy as u32) % 256) as u8;
                    let v = self.t.height[tile(gx, gy)] as i32;
                    assert(gx == w8(tlx + dx) && gy == w8(tly + dy));
                    assert(v == self.h_spec(w8(tlx + dx), w8(tly + dy)));
                    if v < m {
                        m = v;
                        assert(Self::on_rim(dx as int, dy as int, w as int, h as int));
                        assert(m == self.h_spec(w8(tlx + dx), w8(tly + dy)));
                    }
                }
                dx = dx + 1;
            }
            dy = dy + 1;
        }
        m
    }

    /// The gated 3×3 floor smoother at tile (x, y): unless one of the
    /// four diagonal neighbours is building material, the tile's
    /// height becomes the integer mean of its 3×3 window (coordinates
    /// wrap).
    pub fn mc2_smooth_pad_edge(&mut self, x: u8, y: u8)
        requires
            old(self).wf(),
        ensures
            final(self).wf(),
            final(self).ent == old(self).ent,
            final(self).free == old(self).free,
            final(self).sounds == old(self).sounds,
            final(self).assets == old(self).assets,
            final(self).t.tile_type == old(self).t.tile_type,
            final(self).t.angle == old(self).t.angle,
            final(self).t.ceiling == old(self).t.ceiling,
            ({
                let o = old(self);
                let veto = building_material(o.t.tile_type[tile_spec(w8(x - 1), w8(y - 1))])
                    || building_material(o.t.tile_type[tile_spec(w8(x + 1), w8(y - 1))])
                    || building_material(o.t.tile_type[tile_spec(w8(x - 1), w8(y + 1))])
                    || building_material(o.t.tile_type[tile_spec(w8(x + 1), w8(y + 1))]);
                let sum = o.h_spec(w8(x - 1), w8(y - 1)) + o.h_spec(x, w8(y - 1)) + o.h_spec(
                    w8(x + 1),
                    w8(y - 1),
                ) + o.h_spec(w8(x - 1), y) + o.h_spec(x, y) + o.h_spec(w8(x + 1), y) + o.h_spec(
                    w8(x - 1),
                    w8(y + 1),
                ) + o.h_spec(x, w8(y + 1)) + o.h_spec(w8(x + 1), w8(y + 1));
                if veto {
                    final(self).t.height == o.t.height
                } else {
                    final(self).t.height@ == o.t.height@.update(tile_spec(x, y), (sum / 9) as u8)
                }
            }),
            final(self).mc2_castle_research == old(self).mc2_castle_research,
            final(self).mc2_cast_xp == old(self).mc2_cast_xp,
            final(self).rival_ents == old(self).rival_ents,
            final(self).mc2_life_scale == old(self).mc2_life_scale,
            final(self).castle_alert == old(self).castle_alert,
            final(self).balloon_alert == old(self).balloon_alert,
            final(self).terrain_dirty == old(self).terrain_dirty,
            final(self).building_regions == old(self).building_regions,
            final(self).mc2_spell_tokens == old(self).mc2_spell_tokens,
            final(self).mc2_rebound_precise == old(self).mc2_rebound_precise,
            final(self).paints == old(self).paints,
    {
        let xm = ((x as u32 + 255) % 256) as u8;
        let xp = ((x as u32 + 1) % 256) as u8;
        let ym = ((y as u32 + 255) % 256) as u8;
        let yp = ((y as u32 + 1) % 256) as u8;
        assert(xm == w8(x - 1) && xp == w8(x + 1) && ym == w8(y - 1) && yp == w8(y + 1));
        let tt = &self.t.tile_type;
        let c1 = tt[tile(xm, ym)];
        let c2 = tt[tile(xp, ym)];
        let c3 = tt[tile(xm, yp)];
        let c4 = tt[tile(xp, yp)];
        if (6 <= c1 && c1 <= 0x22) || (6 <= c2 && c2 <= 0x22) || (6 <= c3 && c3 <= 0x22) || (6
            <= c4 && c4 <= 0x22) {
            return;
        }
        let h = &self.t.height;
        let sum: u32 = h[tile(xm, ym)] as u32 + h[tile(x, ym)] as u32 + h[tile(xp, ym)] as u32
            + h[tile(xm, y)] as u32 + h[tile(x, y)] as u32 + h[tile(xp, y)] as u32 + h[tile(
            xm,
            yp,
        )] as u32 + h[tile(x, yp)] as u32 + h[tile(xp, yp)] as u32;
        let t = tile(x, y);
        self.t.height.set(t, (sum / 9) as u8);
    }

    /// Queue the tile rectangle (x0, y0)..(x1, y1) for a retile.
    pub fn mc2_add_building_region(&mut self, x0: u8, y0: u8, x1: u8, y1: u8)
        ensures
            final(self).building_regions@ == old(self).building_regions@.push((x0, y0, x1, y1)),
            final(self).ent == old(self).ent,
            final(self).free == old(self).free,
            final(self).sounds == old(self).sounds,
            final(self).t == old(self).t,
            final(self).assets == old(self).assets,
            final(self).mc2_castle_research == old(self).mc2_castle_research,
            final(self).mc2_cast_xp == old(self).mc2_cast_xp,
            final(self).rival_ents == old(self).rival_ents,
            final(self).mc2_life_scale == old(self).mc2_life_scale,
            final(self).castle_alert == old(self).castle_alert,
            final(self).balloon_alert == old(self).balloon_alert,
            final(self).terrain_dirty == old(self).terrain_dirty,
            final(self).mc2_spell_tokens == old(self).mc2_spell_tokens,
            final(self).mc2_rebound_precise == old(self).mc2_rebound_precise,
            final(self).paints == old(self).paints,
    {
        self.building_regions.push((x0, y0, x1, y1));
    }

    /// Queue a texture-band paint of `code` at tile (gx, gy) on column
    /// counter `col`.
    pub fn mc2_paint_cell(&mut self, col: u8, gx: u8, gy: u8, code: u8)
        ensures
            final(self).paints@ == old(self).paints@.push((col, gx, gy, code)),
            final(self).ent == old(self).ent,
            final(self).free == old(self).free,
            final(self).sounds == old(self).sounds,
            final(self).t == old(self).t,
            final(self).assets == old(self).assets,
            final(self).mc2_castle_research == old(self).mc2_castle_research,
            final(self).mc2_cast_xp == old(self).mc2_cast_xp,
            final(self).rival_ents == old(self).rival_ents,
            final(self).mc2_life_scale == old(self).mc2_life_scale,
            final(self).castle_alert == old(self).castle_alert,
            final(self).balloon_alert == old(self).balloon_alert,
            final(self).terrain_dirty == old(self).terrain_dirty,
            final(self).building_regions == old(self).building_regions,
            final(self).mc2_spell_tokens == old(self).mc2_spell_tokens,
            final(self).mc2_rebound_precise == old(self).mc2_rebound_precise,
    {
        self.paints.push((col, gx, gy, code));
    }

    /// The cave seal invariant at tile `t`: angle bit 3 (sealed) is set
    /// exactly when the ceiling does not clear the floor.
    pub fn cave_seal_fixup(&mut self, t: usize)
        requires
            old(self).wf(),
            old(self).t.ceiling.len() > 0,
            t < 0x10000,
        ensures
            final(self).wf(),
            final(self).t.angle@ == old(self).t.angle@.update(
                t as int,
                (if old(self).t.ceiling[t as int] <= old(self).t.height[t as int] {
                    old(self).t.angle[t as int] | 8
                } else {
                    old(self).t.angle[t as int] & 0xF7
                }),
            ),
            final(self).t.height == old(self).t.height,
            final(self).t.ceiling == old(self).t.ceiling,
            final(self).t.tile_type == old(self).t.tile_type,
            final(self).ent == old(self).ent,
            final(self).free == old(self).free,
            final(self).sounds == old(self).sounds,
            final(self).assets == old(self).assets,
            final(self).mc2_castle_research == old(self).mc2_castle_research,
            final(self).mc2_cast_xp == old(self).mc2_cast_xp,
            final(self).rival_ents == old(self).rival_ents,
            final(self).mc2_life_scale == old(self).mc2_life_scale,
            final(self).castle_alert == old(self).castle_alert,
            final(self).balloon_alert == old(self).balloon_alert,
            final(self).terrain_dirty == old(self).terrain_dirty,
            final(self).building_regions == old(self).building_regions,
            final(self).mc2_spell_tokens == old(self).mc2_spell_tokens,
            final(self).mc2_rebound_precise == old(self).mc2_rebound_precise,
            final(self).paints == old(self).paints,
    {
        let a = self.t.angle[t];
        if self.t.ceiling[t] <= self.t.height[t] {
            self.t.angle.set(t, a | 8);
        } else {
            self.t.angle.set(t, a & 0xF7);
        }
    }

    /// The cave ceiling poke: is the headroom over (x, y) lower than
    /// `fov + hover`?
    pub fn cave_poke(&self, fov: i32, hover: i32, x: u16, y: u16) -> (r: bool)
        requires
            self.wf(),
            -0x1000_0000 <= fov <= 0x1000_0000,
            -0x1000_0000 <= hover <= 0x1000_0000,
        ensures
            r == (self.ceiling_spec(x, y) - self.ground_spec(x, y) < fov + hover),
    {
        let c = self.ceiling_z(x, y);
        let g = self.ground_z(x, y);
        c - g < fov + hover
    }

    /// The ceiling height over (x, y) in world z units (the floor on a
    /// surface level).
    pub open spec fn ceiling_spec(&self, x: u16, y: u16) -> int {
        if self.t.ceiling.len() > 0 {
            self.t.ceiling[tile_at_spec(x, y)] as int * 32
        } else {
            self.ground_spec(x, y)
        }
    }

    /// Free live record `j`: reaped, class cleared, the slot back on
    /// the free list.
    pub fn free_entity(&mut self, j: usize)
        requires
            old(self).wf(),
            old(self).slot_ok(j as int),
            old(self).ent[j as int].class64 != 0,
        ensures
            final(self).wf(),
            final(self).keeps_world(old(self)),
            final(self).sounds == old(self).sounds,
            final(self).free@ == old(self).free@.push(j),
            final(self).ent@ == old(self).ent@.update(
                j as int,
                (Ent { class64: 0, flags: old(self).ent[j as int].flags | F_REAPED, ..old(self).ent[j as int] }),
            ),
    {
        proof {
            if old(self).free@.contains(j) {
                let k = choose|k: int| 0 <= k < old(self).free.len() && old(self).free@[k] == j;
                assert(old(self).ent[old(self).free[k] as int].class64 == 0);
            }
        }
        self.ent[j].class64 = 0;
        self.ent[j].flags = self.ent[j].flags | F_REAPED;
        self.free.push(j);
    }
}

} // verus!
