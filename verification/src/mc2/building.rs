//! The rising building: the per-tick terrain work of a building under
//! construction (the footprint purge, the pad height lerp, the cave
//! headroom bubble, the village pre-paint and the texture-band paint)
//! and its completion.

use vstd::prelude::*;
use crate::pool::{Ent, Gen, BuildDef, tile, tile_spec, tile_at_spec, w8, tdiv, lemma_wf_same_classes};
use crate::mc2::mobs::purged;

verus! {

/// The map tile of footprint cell `k` (row-major, `w` cells a row) of
/// the footprint with its NW corner at tile (tlx, tly); coordinates
/// wrap.
pub open spec fn cell_tile(tlx: u8, tly: u8, w: int, k: int) -> int {
    tile_spec(w8(tlx + k % w), w8(tly + k / w))
}

/// The tile coordinates of footprint cell `k`.
pub open spec fn cell_xy(tlx: u8, tly: u8, w: int, k: int) -> (u8, u8) {
    (w8(tlx + k % w), w8(tly + k / w))
}

/// The pad height lerp of one cell: a cell with a pad height (not
/// 0xFF) moves `1/life` of the way from `cur` to `pad + base`
/// (truncating), the result truncated to a byte.
pub open spec fn lerp_h(cur: u8, pad: u8, base: int, life: int) -> u8 {
    if pad != 0xff {
        (cur + tdiv(pad + base - cur, life)) as u8
    } else {
        cur
    }
}

/// The cave headroom bubble of one cell over floor `h`: the ceiling
/// moves `1/life` of the way up toward `max(h, base) + 80` (at most
/// 255) when that is above it; it never comes down.
pub open spec fn lerp_ceil(c: u8, h: u8, base: int, life: int) -> u8 {
    let m = if h as int > base { h as int } else { base };
    let bubble = if m + 80 < 255 { m + 80 } else { 255 };
    if bubble > c {
        (c + tdiv(bubble - c, life)) as u8
    } else {
        c
    }
}

/// The angle byte of one cell after the lerp: a padded flat cell (low
/// bits 0) becomes village ground (low bits 1); under a raised cave
/// the seal bit then says whether the ceiling `c` fails to clear the
/// floor `h`.
pub open spec fn lerp_angle(a: u8, pad: u8, raise: bool, c: u8, h: u8) -> u8 {
    let a1 = if pad != 0xff && a & 7 == 0 { (a & 0xF0) | 1 } else { a };
    if raise {
        if c <= h { a1 | 8 } else { a1 & 0xF7 }
    } else {
        a1
    }
}

/// Is footprint cell `k` a padded flat cell (queued for a retile by
/// the lerp)?
pub open spec fn lerp_retiles(angle: Seq<u8>, dat: Seq<u8>, off: int, tlx: u8, tly: u8, w: int, k: int) -> bool {
    dat[off + 2 * k + 1] != 0xff && angle[cell_tile(tlx, tly, w, k)] & 7 == 0
}

/// The retile regions the lerp queues for the first `k` cells, in
/// cell order: each padded flat cell as a one-tile rectangle.
pub open spec fn lerp_regions(angle: Seq<u8>, dat: Seq<u8>, off: int, tlx: u8, tly: u8, w: int, k: int) -> Seq<(u8, u8, u8, u8)>
    decreases k,
{
    if k <= 0 {
        Seq::empty()
    } else {
        let prev = lerp_regions(angle, dat, off, tlx, tly, w, k - 1);
        if lerp_retiles(angle, dat, off, tlx, tly, w, k - 1) {
            let (gx, gy) = cell_xy(tlx, tly, w, k - 1);
            prev.push((gx, gy, gx, gy))
        } else {
            prev
        }
    }
}

/// Distinct footprint cells of a footprint at most 255 wide and 255
/// tall lie on distinct tiles.
#[verifier::spinoff_prover]
#[verifier::rlimit(40)]
pub proof fn lemma_cells_distinct(tlx: u8, tly: u8, w: int, h: int, k1: int, k2: int)
    requires
        1 <= w <= 255,
        1 <= h <= 255,
        0 <= k1 < w * h,
        0 <= k2 < w * h,
        k1 != k2,
    ensures
        cell_tile(tlx, tly, w, k1) != cell_tile(tlx, tly, w, k2),
{
    let (x1, y1) = (k1 % w, k1 / w);
    let (x2, y2) = (k2 % w, k2 / w);
    assert(k1 == y1 * w + x1 && k2 == y2 * w + x2) by (nonlinear_arith)
        requires
            x1 == k1 % w,
            y1 == k1 / w,
            x2 == k2 % w,
            y2 == k2 / w,
            w >= 1;
    assert(0 <= y1 < h && 0 <= y2 < h) by (nonlinear_arith)
        requires
            y1 == k1 / w,
            y2 == k2 / w,
            0 <= k1 < w * h,
            0 <= k2 < w * h,
            w >= 1;
    assert(0 <= x1 < w && 0 <= x2 < w);
    if cell_tile(tlx, tly, w, k1) == cell_tile(tlx, tly, w, k2) {
        let (ax, ay) = cell_xy(tlx, tly, w, k1);
        let (bx, by) = cell_xy(tlx, tly, w, k2);
        assert(ay as int * 256 + ax as int == by as int * 256 + bx as int);
        assert(ax == bx && ay == by);
        assert(x1 == x2);
        assert(y1 == y2);
        assert(k1 == k2);
    }
}

impl Gen {
    /// The lerp pass of one rising-building tick over the w×h footprint
    /// with its NW corner at (tlx, tly), cells read from the build bank
    /// at `off` (two bytes a cell: paint code, pad height): every cell's
    /// height, ceiling (when `raise`) and angle as [`lerp_h`],
    /// [`lerp_ceil`] and [`lerp_angle`] say, and the padded flat cells
    /// queued for a retile in cell order.
    #[verifier::spinoff_prover]
    #[verifier::rlimit(80)]
    pub fn mc2_building_lerp(&mut self, tlx: u8, tly: u8, w: usize, h: usize, off: usize, base: i32, life: i32, raise: bool)
        requires
            old(self).wf(),
            1 <= w <= 255,
            1 <= h <= 255,
            off + 2 * w * h <= old(self).assets.build_dat.len(),
            life >= 1,
            -1024 <= base <= 1023,
            raise ==> old(self).t.ceiling.len() > 0,
        ensures
            final(self).wf(),
            final(self).ent == old(self).ent,
            final(self).free == old(self).free,
            final(self).sounds == old(self).sounds,
            final(self).assets == old(self).assets,
            final(self).t.tile_type == old(self).t.tile_type,
            ({
                let o = old(self);
                let dat = o.assets.build_dat@;
                &&& forall|k: int| 0 <= k < w * h ==> {
                    let t = #[trigger] cell_tile(tlx, tly, w as int, k);
                    let nh = lerp_h(o.t.height[t], dat[off + 2 * k + 1], base as int, life as int);
                    let nc = if raise { lerp_ceil(o.t.ceiling[t], nh, base as int, life as int) } else { o.t.ceiling[t] };
                    &&& final(self).t.height[t] == nh
                    &&& (raise ==> final(self).t.ceiling[t] == nc)
                    &&& final(self).t.angle[t] == lerp_angle(o.t.angle[t], dat[off + 2 * k + 1], raise, nc, nh)
                }
                &&& forall|t: int| 0 <= t < 0x10000 && (forall|k: int| 0 <= k < w * h ==> #[trigger] cell_tile(tlx, tly, w as int, k) != t)
                    ==> final(self).t.height[t] == o.t.height[t] && final(self).t.angle[t] == o.t.angle[t]
                        && (o.t.ceiling.len() > 0 ==> final(self).t.ceiling[t] == o.t.ceiling[t])
                &&& !raise ==> final(self).t.ceiling == o.t.ceiling
                &&& final(self).building_regions@ == o.building_regions@ + lerp_regions(o.t.angle@, dat, off as int, tlx, tly, w as int, (w * h) as int)
            }),
            final(self).mc2_castle_research == old(self).mc2_castle_research,
            final(self).mc2_cast_xp == old(self).mc2_cast_xp,
            final(self).rival_ents == old(self).rival_ents,
            final(self).mc2_life_scale == old(self).mc2_life_scale,
            final(self).castle_alert == old(self).castle_alert,
            final(self).balloon_alert == old(self).balloon_alert,
            final(self).terrain_dirty == old(self).terrain_dirty,
            final(self).mc2_spell_tokens == old(self).mc2_spell_tokens,
            final(self).mc2_rebound_precise == old(self).mc2_rebound_precise,
            final(self).paints == old(self).paints,
    {
        assert(w * h <= 65025 && 2 * w * h == 2 * (w * h)) by (nonlinear_arith)
            requires
                1 <= w <= 255,
                1 <= h <= 255;
        let n = w * h;
        let mut k: usize = 0;
        while k < n
            invariant
                n == w * h,
                1 <= w <= 255,
                1 <= h <= 255,
                k <= n,
                off + 2 * n <= self.assets.build_dat.len(),
                life >= 1,
                -1024 <= base <= 1023,
                raise ==> self.t.ceiling.len() > 0,
                self.wf(),
                self.ent == old(self).ent,
                self.free == old(self).free,
                self.sounds == old(self).sounds,
                self.assets == old(self).assets,
                self.t.tile_type == old(self).t.tile_type,
                self.t.ceiling.len() == old(self).t.ceiling.len(),
                self.mc2_castle_research == old(self).mc2_castle_research,
                self.mc2_cast_xp == old(self).mc2_cast_xp,
                self.rival_ents == old(self).rival_ents,
                self.mc2_life_scale == old(self).mc2_life_scale,
                self.castle_alert == old(self).castle_alert,
                self.balloon_alert == old(self).balloon_alert,
                self.terrain_dirty == old(self).terrain_dirty,
                self.mc2_spell_tokens == old(self).mc2_spell_tokens,
                self.mc2_rebound_precise == old(self).mc2_rebound_precise,
                self.paints == old(self).paints,
                !raise ==> self.t.ceiling == old(self).t.ceiling,
                forall|q: int| 0 <= q < k ==> {
                    let t = #[trigger] cell_tile(tlx, tly, w as int, q);
                    let nh = lerp_h(old(self).t.height[t], old(self).assets.build_dat@[off + 2 * q + 1], base as int, life as int);
                    let nc = if raise { lerp_ceil(old(self).t.ceiling[t], nh, base as int, life as int) } else { old(self).t.ceiling[t] };
                    &&& self.t.height[t] == nh
                    &&& (raise ==> self.t.ceiling[t] == nc)
                    &&& self.t.angle[t] == lerp_angle(old(self).t.angle[t], old(self).assets.build_dat@[off + 2 * q + 1], raise, nc, nh)
                },
                forall|t: int| 0 <= t < 0x10000 && (forall|q: int| 0 <= q < k ==> #[trigger] cell_tile(tlx, tly, w as int, q) != t)
                    ==> self.t.height[t] == old(self).t.height[t] && self.t.angle[t] == old(self).t.angle[t]
                        && (old(self).t.ceiling.len() > 0 ==> self.t.ceiling[t] == old(self).t.ceiling[t]),
                self.building_regions@ == old(self).building_regions@ + lerp_regions(old(self).t.angle@, old(self).assets.build_dat@, off as int, tlx, tly, w as int, k as int),
            decreases n - k,
        {
            let dx = k % w;
            let dy = k / w;
            assert(dy < h) by (nonlinear_arith)
                requires
                    dy == k / w,
                    k < w * h,
                    w >= 1;
            let gx = ((tlx as usize + dx) % 256) as u8;
            let gy = ((tly as usize + dy) % 256) as u8;
            let t = tile(gx, gy);
            proof {
                assert(t as int == cell_tile(tlx, tly, w as int, k as int));
                assert forall|q: int| 0 <= q < k implies #[trigger] cell_tile(tlx, tly, w as int, q) != t by {
                    lemma_cells_distinct(tlx, tly, w as int, h as int, q, k as int);
                }
            }
            let pad = self.assets.build_dat[off + 2 * k + 1];
            let cur = self.t.height[t];
            let nh: u8 = if pad != 0xff {
                let target: i32 = pad as i32 + base;
                let step: i32 = (target - cur as i32) / life;
                #[verifier::truncate] ((cur as i32 + step) as u8)
            } else {
                cur
            };
            self.t.height.set(t, nh);
            let a = self.t.angle[t];
            if pad != 0xff && a & 7 == 0 {
                self.t.angle.set(t, (a & 0xF0) | 1);
                self.building_regions.push((gx, gy, gx, gy));
            }
            if raise {
                let c = self.t.ceiling[t];
                let m: i32 = if nh as i32 > base { nh as i32 } else { base };
                let bubble: i32 = if m + 80 < 255 { m + 80 } else { 255 };
                if bubble > c as i32 {
                    let step: i32 = (bubble - c as i32) / life;
                    let nc: u8 = #[verifier::truncate] ((c as i32 + step) as u8);
                    self.t.ceiling.set(t, nc);
                }
                let a2 = self.t.angle[t];
                if self.t.ceiling[t] <= self.t.height[t] {
                    self.t.angle.set(t, a2 | 8);
                } else {
                    self.t.angle.set(t, a2 & 0xF7);
                }
            }
            proof {
                let ghost prevk = k as int;
                assert(lerp_regions(old(self).t.angle@, old(self).assets.build_dat@, off as int, tlx, tly, w as int, prevk + 1)
                    == (if lerp_retiles(old(self).t.angle@, old(self).assets.build_dat@, off as int, tlx, tly, w as int, prevk) {
                        lerp_regions(old(self).t.angle@, old(self).assets.build_dat@, off as int, tlx, tly, w as int, prevk).push((gx, gy, gx, gy))
                    } else {
                        lerp_regions(old(self).t.angle@, old(self).assets.build_dat@, off as int, tlx, tly, w as int, prevk)
                    }));
            }
            k = k + 1;
        }
    }
}

/// Does footprint cell `k` carry a paint code (not 0xFF)?
pub open spec fn cell_painted(dat: Seq<u8>, off: int, k: int) -> bool {
    dat[off + 2 * k] != 0xff
}

/// The texture-band paints of the first `k` cells, in cell order:
/// (column, tile x, tile y, code) for each painted cell.
pub open spec fn cell_paints(dat: Seq<u8>, off: int, tlx: u8, tly: u8, w: int, k: int) -> Seq<(u8, u8, u8, u8)>
    decreases k,
{
    if k <= 0 {
        Seq::empty()
    } else {
        let prev = cell_paints(dat, off, tlx, tly, w, k - 1);
        if cell_painted(dat, off, k - 1) {
            let (gx, gy) = cell_xy(tlx, tly, w, k - 1);
            prev.push((((k - 1) % w) as u8, gx, gy, dat[off + 2 * (k - 1)]))
        } else {
            prev
        }
    }
}

/// The retile regions of the completion sweep for the first `k`
/// cells: each painted cell as a one-tile rectangle.
pub open spec fn sweep_regions(dat: Seq<u8>, off: int, tlx: u8, tly: u8, w: int, k: int) -> Seq<(u8, u8, u8, u8)>
    decreases k,
{
    if k <= 0 {
        Seq::empty()
    } else {
        let prev = sweep_regions(dat, off, tlx, tly, w, k - 1);
        if cell_painted(dat, off, k - 1) {
            let (gx, gy) = cell_xy(tlx, tly, w, k - 1);
            prev.push((gx, gy, gx, gy))
        } else {
            prev
        }
    }
}

/// Is tile `t` one of the footprint's first `k` cells?
pub open spec fn in_cells(tlx: u8, tly: u8, w: int, k: int, t: int) -> bool {
    exists|q: int| 0 <= q < k && #[trigger] cell_tile(tlx, tly, w, q) == t
}

/// What the footprint purge by `owner` makes of record `e`: the purge
/// of its own tile when that tile is under the footprint.
pub open spec fn footprint_purged(e: Ent, tlx: u8, tly: u8, w: int, n: int, owner: u16) -> Ent {
    if in_cells(tlx, tly, w, n, tile_at_spec(e.x, e.y)) {
        purged(e, tile_at_spec(e.x, e.y), owner)
    } else {
        e
    }
}

impl Gen {
    /// The village pre-paint and texture-band paint over the footprint:
    /// every painted cell becomes walkable village ground (angle low
    /// bits 1, tile type 1), then each painted cell's code is queued
    /// for the painter in cell order.
    #[verifier::spinoff_prover]
    #[verifier::rlimit(60)]
    pub fn mc2_building_paint(&mut self, tlx: u8, tly: u8, w: usize, h: usize, off: usize)
        requires
            old(self).wf(),
            1 <= w <= 255,
            1 <= h <= 255,
            off + 2 * w * h <= old(self).assets.build_dat.len(),
        ensures
            final(self).wf(),
            final(self).ent == old(self).ent,
            final(self).free == old(self).free,
            final(self).sounds == old(self).sounds,
            final(self).assets == old(self).assets,
            final(self).t.height == old(self).t.height,
            final(self).t.ceiling == old(self).t.ceiling,
            ({
                let o = old(self);
                let dat = o.assets.build_dat@;
                &&& forall|k: int| 0 <= k < w * h ==> {
                    let t = #[trigger] cell_tile(tlx, tly, w as int, k);
                    &&& final(self).t.angle[t] == (if cell_painted(dat, off as int, k) { (o.t.angle[t] & 0xF0) | 1 } else { o.t.angle[t] })
                    &&& final(self).t.tile_type[t] == (if cell_painted(dat, off as int, k) { 1u8 } else { o.t.tile_type[t] })
                }
                &&& forall|t: int| 0 <= t < 0x10000 && (forall|k: int| 0 <= k < w * h ==> #[trigger] cell_tile(tlx, tly, w as int, k) != t)
                    ==> final(self).t.angle[t] == o.t.angle[t] && final(self).t.tile_type[t] == o.t.tile_type[t]
                &&& final(self).paints@ == o.paints@ + cell_paints(dat, off as int, tlx, tly, w as int, (w * h) as int)
            }),
            final(self).building_regions == old(self).building_regions,
            final(self).mc2_castle_research == old(self).mc2_castle_research,
            final(self).mc2_cast_xp == old(self).mc2_cast_xp,
            final(self).rival_ents == old(self).rival_ents,
            final(self).mc2_life_scale == old(self).mc2_life_scale,
            final(self).castle_alert == old(self).castle_alert,
            final(self).balloon_alert == old(self).balloon_alert,
            final(self).terrain_dirty == old(self).terrain_dirty,
            final(self).mc2_spell_tokens == old(self).mc2_spell_tokens,
            final(self).mc2_rebound_precise == old(self).mc2_rebound_precise,
    {
        assert(w * h <= 65025 && 2 * w * h == 2 * (w * h)) by (nonlinear_arith)
            requires
                1 <= w <= 255,
                1 <= h <= 255;
        let n = w * h;
        let mut k: usize = 0;
        while k < n
            invariant
                n == w * h,
                1 <= w <= 255,
                1 <= h <= 255,
                k <= n,
                off + 2 * n <= self.assets.build_dat.len(),
                self.wf(),
                self.ent == old(self).ent,
                self.free == old(self).free,
                self.sounds == old(self).sounds,
                self.assets == old(self).assets,
                self.t.height == old(self).t.height,
                self.t.ceiling == old(self).t.ceiling,
                self.building_regions == old(self).building_regions,
                self.paints == old(self).paints,
                self.mc2_castle_research == old(self).mc2_castle_research,
                self.mc2_cast_xp == old(self).mc2_cast_xp,
                self.rival_ents == old(self).rival_ents,
                self.mc2_life_scale == old(self).mc2_life_scale,
                self.castle_alert == old(self).castle_alert,
                self.balloon_alert == old(self).balloon_alert,
                self.terrain_dirty == old(self).terrain_dirty,
                self.mc2_spell_tokens == old(self).mc2_spell_tokens,
                self.mc2_rebound_precise == old(self).mc2_rebound_precise,
                forall|q: int| 0 <= q < k ==> {
                    let t = #[trigger] cell_tile(tlx, tly, w as int, q);
                    &&& self.t.angle[t] == (if cell_painted(old(self).assets.build_dat@, off as int, q) { (old(self).t.angle[t] & 0xF0) | 1 } else { old(self).t.angle[t] })
                    &&& self.t.tile_type[t] == (if cell_painted(old(self).assets.build_dat@, off as int, q) { 1u8 } else { old(self).t.tile_type[t] })
                },
                forall|t: int| 0 <= t < 0x10000 && (forall|q: int| 0 <= q < k ==> #[trigger] cell_tile(tlx, tly, w as int, q) != t)
                    ==> self.t.angle[t] == old(self).t.angle[t] && self.t.tile_type[t] == old(self).t.tile_type[t],
            decreases n - k,
        {
            let dx = k % w;
            let dy = k / w;
            assert(dy < h) by (nonlinear_arith)
                requires
                    dy == k / w,
                    k < w * h,
                    w >= 1;
            let gx = ((tlx as usize + dx) % 256) as u8;
            let gy = ((tly as usize + dy) % 256) as u8;
            let t = tile(gx, gy);
            proof {
                assert(t as int == cell_tile(tlx, tly, w as int, k as int));
                assert forall|q: int| 0 <= q < k implies #[trigger] cell_tile(tlx, tly, w as int, q) != t by {
                    lemma_cells_distinct(tlx, tly, w as int, h as int, q, k as int);
                }
            }
            if self.assets.build_dat[off + 2 * k] != 0xff {
                let a = self.t.angle[t];
                self.t.angle.set(t, (a & 0xF0) | 1);
                self.t.tile_type.set(t, 1);
            }
            k = k + 1;
        }
        self.mc2_building_paint_codes(tlx, tly, w, h, off);
    }

    /// The texture-band paint queue of the footprint: each painted
    /// cell's (column, tile x, tile y, code), in cell order.
    pub fn mc2_building_paint_codes(&mut self, tlx: u8, tly: u8, w: usize, h: usize, off: usize)
        requires
            1 <= w <= 255,
            1 <= h <= 255,
            off + 2 * w * h <= old(self).assets.build_dat.len(),
        ensures
            final(self).paints@ == old(self).paints@ + cell_paints(old(self).assets.build_dat@, off as int, tlx, tly, w as int, (w * h) as int),
            final(self).ent == old(self).ent,
            final(self).free == old(self).free,
            final(self).sounds == old(self).sounds,
            final(self).t == old(self).t,
            final(self).assets == old(self).assets,
            final(self).building_regions == old(self).building_regions,
            final(self).mc2_castle_research == old(self).mc2_castle_research,
            final(self).mc2_cast_xp == old(self).mc2_cast_xp,
            final(self).rival_ents == old(self).rival_ents,
            final(self).mc2_life_scale == old(self).mc2_life_scale,
            final(self).castle_alert == old(self).castle_alert,
            final(self).balloon_alert == old(self).balloon_alert,
            final(self).terrain_dirty == old(self).terrain_dirty,
            final(self).mc2_spell_tokens == old(self).mc2_spell_tokens,
            final(self).mc2_rebound_precise == old(self).mc2_rebound_precise,
    {
        assert(w * h <= 65025 && 2 * w * h == 2 * (w * h)) by (nonlinear_arith)
            requires
                1 <= w <= 255,
                1 <= h <= 255;
        let n = w * h;
        let mut k: usize = 0;
        while k < n
            invariant
                n == w * h,
                1 <= w <= 255,
                k <= n,
                n <= 65025,
                off + 2 * n <= self.assets.build_dat.len(),
                self.ent == old(self).ent,
                self.free == old(self).free,
                self.sounds == old(self).sounds,
                self.t == old(self).t,
                self.assets == old(self).assets,
                self.building_regions == old(self).building_regions,
                self.mc2_castle_research == old(self).mc2_castle_research,
                self.mc2_cast_xp == old(self).mc2_cast_xp,
                self.rival_ents == old(self).rival_ents,
                self.mc2_life_scale == old(self).mc2_life_scale,
                self.castle_alert == old(self).castle_alert,
                self.balloon_alert == old(self).balloon_alert,
                self.terrain_dirty == old(self).terrain_dirty,
                self.mc2_spell_tokens == old(self).mc2_spell_tokens,
                self.mc2_rebound_precise == old(self).mc2_rebound_precise,
                self.paints@ == old(self).paints@ + cell_paints(old(self).assets.build_dat@, off as int, tlx, tly, w as int, k as int),
            decreases n - k,
        {
            let dx = k % w;
            let dy = k / w;
            assert(dy <= k) by (nonlinear_arith)
                requires
                    dy == k / w,
                    w >= 1,
                    k >= 0;
            let gx = ((tlx as usize + dx) % 256) as u8;
            let gy = ((tly as usize + dy) % 256) as u8;
            let code = self.assets.build_dat[off + 2 * k];
            if code != 0xff {
                self.mc2_paint_cell(dx as u8, gx, gy, code);
            }
            k = k + 1;
        }
    }

    /// The completion sweep: each painted cell queued for a retile, in
    /// cell order.
    pub fn mc2_building_sweep(&mut self, tlx: u8, tly: u8, w: usize, h: usize, off: usize)
        requires
            1 <= w <= 255,
            1 <= h <= 255,
            off + 2 * w * h <= old(self).assets.build_dat.len(),
        ensures
            final(self).building_regions@ == old(self).building_regions@ + sweep_regions(
                old(self).assets.build_dat@,
                off as int,
                tlx,
                tly,
                w as int,
                (w * h) as int,
            ),
            final(self).ent == old(self).ent,
            final(self).free == old(self).free,
            final(self).sounds == old(self).sounds,
            final(self).t == old(self).t,
            final(self).assets == old(self).assets,
            final(self).mc2_castle_research == old(self).mc2_castle_research,
            final(self).mc2_cast_xp == old(self).mc2_cast_xp,
            final(self).rival_ents == old(self).rival_ents,
            final(self).mc2_life_scale == old(self).mc2_life_scale,
            final(self).castle_alert == old(self).castle_alert,
            final(self).balloon_alert == old(self).balloon_alert,
            final(self).terrain_dirty == old(self).terrain_dirty,
            final(self).mc2_spell_tokens == old(self).mc2_spell_tokens,
            final(self).mc2_rebound_precise == old(self).mc2_rebound_precise,
            final(self).paints == old(self).paints,
    {
        assert(w * h <= 65025 && 2 * w * h == 2 * (w * h)) by (nonlinear_arith)
            requires
                1 <= w <= 255,
                1 <= h <= 255;
        let n = w * h;
        let mut k: usize = 0;
        while k < n
            invariant
                n == w * h,
                n <= 65025,
                1 <= w <= 255,
                k <= n,
                off + 2 * n <= self.assets.build_dat.len(),
                self.ent == old(self).ent,
                self.free == old(self).free,
                self.sounds == old(self).sounds,
                self.t == old(self).t,
                self.assets == old(self).assets,
                self.mc2_castle_research == old(self).mc2_castle_research,
                self.mc2_cast_xp == old(self).mc2_cast_xp,
                self.rival_ents == old(self).rival_ents,
                self.mc2_life_scale == old(self).mc2_life_scale,
                self.castle_alert == old(self).castle_alert,
                self.balloon_alert == old(self).balloon_alert,
                self.terrain_dirty == old(self).terrain_dirty,
                self.mc2_spell_tokens == old(self).mc2_spell_tokens,
                self.mc2_rebound_precise == old(self).mc2_rebound_precise,
                self.paints == old(self).paints,
                self.building_regions@ == old(self).building_regions@ + sweep_regions(old(self).assets.build_dat@, off as int, tlx, tly, w as int, k as int),
            decreases n - k,
        {
            assert(k / w <= k) by (nonlinear_arith)
                requires
                    w >= 1,
                    k >= 0;
            let gx = ((tlx as usize + k % w) % 256) as u8;
            let gy = ((tly as usize + k / w) % 256) as u8;
            if self.assets.build_dat[off + 2 * k] != 0xff {
                self.mc2_add_building_region(gx, gy, gx, gy);
            }
            k = k + 1;
        }
    }

    /// The footprint purge of the first countdown tick: the build purge
    /// (see [`purged`]) of every footprint tile by `owner`.
    #[verifier::spinoff_prover]
    #[verifier::rlimit(60)]
    pub fn mc2_building_footprint_kill(&mut self, tlx: u8, tly: u8, w: usize, h: usize, owner: u16)
        requires
            old(self).wf(),
            1 <= w <= 255,
            1 <= h <= 255,
        ensures
            final(self).wf(),
            final(self).keeps_world(old(self)),
            final(self).sounds == old(self).sounds,
            final(self).ent.len() == old(self).ent.len(),
            final(self).ent[0] == old(self).ent[0],
            forall|j: int| 1 <= j < old(self).ent.len() ==> #[trigger] final(self).ent[j] == footprint_purged(
                old(self).ent[j],
                tlx,
                tly,
                w as int,
                (w * h) as int,
                owner,
            ),
            final(self).free@.len() >= old(self).free@.len(),
            forall|k: int| 0 <= k < old(self).free@.len() ==> #[trigger] final(self).free@[k] == old(self).free@[k],
    {
        assert(w * h <= 65025) by (nonlinear_arith)
            requires
                1 <= w <= 255,
                1 <= h <= 255;
        let n = w * h;
        let mut k: usize = 0;
        while k < n
            invariant
                n == w * h,
                n <= 65025,
                1 <= w <= 255,
                1 <= h <= 255,
                k <= n,
                self.wf(),
                self.keeps_world(old(self)),
                self.sounds == old(self).sounds,
                self.ent.len() == old(self).ent.len(),
                self.ent[0] == old(self).ent[0],
                forall|j: int| 1 <= j < old(self).ent.len() ==> #[trigger] self.ent[j] == footprint_purged(
                    old(self).ent[j],
                    tlx,
                    tly,
                    w as int,
                    k as int,
                    owner,
                ),
                self.free@.len() >= old(self).free@.len(),
                forall|q: int| 0 <= q < old(self).free@.len() ==> #[trigger] self.free@[q] == old(self).free@[q],
            decreases n - k,
        {
            assert(k / w <= k) by (nonlinear_arith)
                requires
                    w >= 1,
                    k >= 0;
            let gx = ((tlx as usize + k % w) % 256) as u8;
            let gy = ((tly as usize + k / w) % 256) as u8;
            let t = tile(gx, gy);
            let ghost g0 = *self;
            proof {
                assert(t as int == cell_tile(tlx, tly, w as int, k as int));
                assert(k / w < h) by (nonlinear_arith)
                    requires
                        k < w * h,
                        w >= 1;
            }
            self.mc2_building_clear_tile(t, owner);
            proof {
                assert forall|j: int| 1 <= j < old(self).ent.len() implies #[trigger] self.ent[j] == footprint_purged(
                    old(self).ent[j],
                    tlx,
                    tly,
                    w as int,
                    k as int + 1,
                    owner,
                ) by {
                    let e = old(self).ent[j];
                    let te = tile_at_spec(e.x, e.y);
                    if te == t as int {
                        assert(in_cells(tlx, tly, w as int, k as int + 1, te));
                        if in_cells(tlx, tly, w as int, k as int, te) {
                            let q = choose|q: int| 0 <= q < k && #[trigger] cell_tile(tlx, tly, w as int, q) == te;
                            lemma_cells_distinct(tlx, tly, w as int, h as int, q, k as int);
                        }
                    } else {
                        if in_cells(tlx, tly, w as int, k as int + 1, te) {
                            let q = choose|q: int| 0 <= q < k + 1 && #[trigger] cell_tile(tlx, tly, w as int, q) == te;
                            assert(q < k);
                            assert(in_cells(tlx, tly, w as int, k as int, te));
                        }
                    }
                }
            }
            k = k + 1;
        }
    }
}

/// What one tick of a rising building leaves for the chassis.
pub enum BuildingStep {
    /// No footprint (an unknown building row, or its cells outside the
    /// bank): parked as a static building.
    Invalid,
    /// Still rising.
    Rising,
    /// Finished this tick and parked: the chassis rings the pad edges
    /// (thickness 2, then 5) and mints the completion painters on the
    /// overlapping wizards.
    Finished,
}

/// `z >> 5`: the floor of z / 32.
pub open spec fn floor32(z: i16) -> int {
    if z >= 0 { z as int / 32 } else { -((-(z as int) + 31) / 32) }
}

/// The tile coordinate of the footprint centre on one axis.
pub open spec fn centre_cell(v: u16) -> u8 {
    (((v + 128) % 0x10000) / 256) as u8
}

/// The parked building: the production rate (1000 · f44) as its life,
/// the flag flying when owned (bit 0 clear) and not otherwise, the
/// rising height kept as the site datum and the record on the ground.
pub open spec fn parked(e: Ent, ground: int) -> Ent {
    Ent {
        tick70: 52,
        act_life: (1000 * e.f44 as int) as i32,
        flags: if e.f144 != 0 { e.flags & !1u32 } else { e.flags | 1 },
        site_z: e.z,
        z: ground as i16,
        ..e
    }
}

impl Gen {
    /// The footprint row of building record `i`, when it has one whose
    /// cells lie in the bank.
    pub open spec fn bldg_def(&self, i: int) -> Option<BuildDef> {
        let b = self.ent[i].f71 as int;
        if b < self.assets.build_tab.len() {
            let d = self.assets.build_tab[b];
            if d.offset + 2 * d.w * d.h <= self.assets.build_dat.len() { Some(d) } else { None }
        } else {
            None
        }
    }

    /// Does building row `b` raise the cave ceiling (a cave, and its
    /// parameter flags without bit 2)?
    pub open spec fn bldg_raises(&self, b: int) -> bool {
        self.t.ceiling.len() > 0 && (b >= self.assets.bldg_flags.len() || self.assets.bldg_flags[b] & 4 == 0)
    }

    /// What a rising tick of building `i` leaves in `f`, from `self`: the
    /// record keeps all but its life, now `life`; on the `first` tick
    /// the other records take the footprint purge by `owner`; every
    /// footprint cell takes the lerp (see [`lerp_h`], [`lerp_ceil`],
    /// [`lerp_angle`]) and on the cadence ticks (`life` a multiple of 5,
    /// or 1) the paint; the rest of the bank is untouched; the lerp's
    /// retiles and the cadence paints are queued in cell order.
    #[verifier::opaque]
    pub open spec fn rising_post(self, f: Gen, i: int, tlx: u8, tly: u8, w: int, n: int, off: int, base: int, life: int,
        raise: bool, owner: u16, first: bool) -> bool {
        let o = self;
        let dat = o.assets.build_dat@;
        let cadence = life % 5 == 0 || life == 1;
        &&& f.ent[i] == (Ent { act_life: life as i32, ..o.ent[i] })
        &&& forall|j: int| 1 <= j < o.ent.len() && j != i ==> #[trigger] f.ent[j] == (if first {
            footprint_purged(o.ent[j], tlx, tly, w, n, owner)
        } else {
            o.ent[j]
        })
        &&& f.ent[0] == o.ent[0]
        &&& forall|k: int| 0 <= k < o.free@.len() ==> #[trigger] f.free@[k] == o.free@[k]
        &&& !first ==> f.free == o.free
        &&& forall|k: int| 0 <= k < n ==> {
            let t = #[trigger] cell_tile(tlx, tly, w, k);
            let nh = lerp_h(o.t.height[t], dat[off + 2 * k + 1], base, life);
            let nc = if raise { lerp_ceil(o.t.ceiling[t], nh, base, life) } else { o.t.ceiling[t] };
            let a1 = lerp_angle(o.t.angle[t], dat[off + 2 * k + 1], raise, nc, nh);
            let painted = cadence && cell_painted(dat, off, k);
            &&& f.t.height[t] == nh
            &&& (raise ==> f.t.ceiling[t] == nc)
            &&& f.t.angle[t] == (if painted { (a1 & 0xF0) | 1 } else { a1 })
            &&& f.t.tile_type[t] == (if painted { 1u8 } else { o.t.tile_type[t] })
        }
        &&& forall|t: int| 0 <= t < 0x10000 && (forall|k: int| 0 <= k < n ==> #[trigger] cell_tile(tlx, tly, w, k) != t)
            ==> f.t.height[t] == o.t.height[t] && f.t.angle[t] == o.t.angle[t]
                && f.t.tile_type[t] == o.t.tile_type[t]
                && (o.t.ceiling.len() > 0 ==> f.t.ceiling[t] == o.t.ceiling[t])
        &&& !raise ==> f.t.ceiling == o.t.ceiling
        &&& f.building_regions@ == o.building_regions@ + lerp_regions(o.t.angle@, dat, off, tlx, tly, w, n)
        &&& f.paints@ == o.paints@ + (if cadence { cell_paints(dat, off, tlx, tly, w, n) } else { Seq::empty() })
    }

    /// The rising relation from the record with its life already set
    /// is the relation from the record before.
    proof fn lemma_rising_post_from_set(o: Gen, g1: Gen, f: Gen, i: int, tlx: u8, tly: u8, w: int, n: int, off: int,
        base: int, life: int, raise: bool, owner: u16, first: bool)
        requires
            1 <= i < o.ent.len(),
            g1.ent@ == o.ent@.update(i, Ent { act_life: life as i32, ..o.ent[i] }),
            g1 == (Gen { ent: g1.ent, ..o }),
            g1.rising_post(f, i, tlx, tly, w, n, off, base, life, raise, owner, first),
        ensures
            o.rising_post(f, i, tlx, tly, w, n, off, base, life, raise, owner, first),
    {
        reveal(Gen::rising_post);
        assert(g1.t == o.t && g1.free == o.free && g1.assets == o.assets && g1.paints == o.paints
            && g1.building_regions == o.building_regions);
        assert(g1.ent.len() == o.ent.len());
        assert(g1.ent[i] == (Ent { act_life: life as i32, ..o.ent[i] }));
        assert(f.ent[i] == (Ent { act_life: life as i32, ..o.ent[i] }));
        assert forall|j: int| 1 <= j < o.ent.len() && j != i implies #[trigger] f.ent[j] == (if first {
            footprint_purged(o.ent[j], tlx, tly, w, n, owner)
        } else {
            o.ent[j]
        }) by {
            assert(g1.ent[j] == o.ent[j]);
        }
        assert(g1.ent[0] == o.ent[0]);
    }

    /// One tick of rising building `i` (the state-51 builder): without
    /// a footprint it parks; otherwise its countdown life drops by one.
    /// At zero it finishes: the painted cells are queued for a retile
    /// and the record parks (see [`parked`]). Before that, the first
    /// countdown tick purges the footprint (see [`footprint_purged`],
    /// by the building's owner); every tick lerps the pad heights, the
    /// cave headroom and the cell angles (see [`Self::mc2_building_lerp`]);
    /// every fifth tick and the last one pre-paint the village ground
    /// and queue the texture-band paints (see [`Self::mc2_building_paint`]).
    /// The footprint is the building row's w×h centred on the record's
    /// tile, its datum `z >> 5`.
    #[verifier::spinoff_prover]
    #[verifier::rlimit(80)]
    pub fn mc2_building_tick(&mut self, i: usize) -> (step: BuildingStep)
        requires
            old(self).wf(),
            1 <= i < old(self).ent.len(),
            old(self).bldg_def(i as int) is Some ==> old(self).ent[i as int].act_life > i32::MIN,
        ensures
            final(self).wf(),
            final(self).sounds == old(self).sounds,
            final(self).assets == old(self).assets,
            final(self).ent.len() == old(self).ent.len(),
            ({
                let o = old(self);
                let e = o.ent[i as int];
                match o.bldg_def(i as int) {
                    None => {
                        &&& step == BuildingStep::Invalid
                        &&& final(self).ent@ == o.ent@.update(i as int, Ent { tick70: 52, ..e })
                        &&& final(self).free == o.free
                        &&& final(self).t == o.t
                        &&& final(self).building_regions == o.building_regions
                        &&& final(self).paints == o.paints
                    },
                    Some(d) => {
                        let w = d.w as int;
                        let h = d.h as int;
                        let n = w * h;
                        let off = d.offset as int;
                        let dat = o.assets.build_dat@;
                        let tlx = w8(centre_cell(e.x) - w / 2);
                        let tly = w8(centre_cell(e.y) - h / 2);
                        let life = e.act_life - 1;
                        if life <= 0 {
                            &&& step == BuildingStep::Finished
                            &&& final(self).ent@ == o.ent@.update(i as int, parked(Ent { act_life: life as i32, ..e }, o.ground_spec(e.x, e.y)))
                            &&& final(self).free == o.free
                            &&& final(self).t == o.t
                            &&& final(self).building_regions@ == o.building_regions@ + sweep_regions(dat, off, tlx, tly, w, n)
                            &&& final(self).paints == o.paints
                        } else {
                            let first = (e.max_life as i32) as int - 1 == life;
                            &&& step == BuildingStep::Rising
                            &&& o.rising_post(*final(self), i as int, tlx, tly, w, n, off, floor32(e.z), life,
                                o.bldg_raises(e.f71 as int), e.id24, first)
                        }
                    },
                }
            }),
            final(self).mc2_castle_research == old(self).mc2_castle_research,
            final(self).mc2_cast_xp == old(self).mc2_cast_xp,
            final(self).rival_ents == old(self).rival_ents,
            final(self).mc2_life_scale == old(self).mc2_life_scale,
            final(self).castle_alert == old(self).castle_alert,
            final(self).balloon_alert == old(self).balloon_alert,
            final(self).terrain_dirty == old(self).terrain_dirty,
            final(self).mc2_spell_tokens == old(self).mc2_spell_tokens,
            final(self).mc2_rebound_precise == old(self).mc2_rebound_precise,
    {
        let b = self.ent[i].f71 as usize;
        if b >= self.assets.build_tab.len() {
            self.park_invalid(i);
            return BuildingStep::Invalid;
        }
        let d = self.assets.build_tab[b];
        let w = d.w as usize;
        let h = d.h as usize;
        let off = d.offset as usize;
        assert(0 <= 2 * (w as u64) * (h as u64) <= 2 * 255 * 255) by (nonlinear_arith)
            requires
                w <= 255,
                h <= 255;
        if off as u64 + 2 * (w as u64) * (h as u64) > self.assets.build_dat.len() as u64 {
            self.park_invalid(i);
            return BuildingStep::Invalid;
        }
        let e = self.ent[i];
        let ghost o = *self;
        let cx: u8 = ((e.x as u32 + 128) % 0x10000 / 256) as u8;
        let cy: u8 = ((e.y as u32 + 128) % 0x10000 / 256) as u8;
        let tlx: u8 = ((cx as u32 + 256 - (w / 2) as u32) % 256) as u8;
        let tly: u8 = ((cy as u32 + 256 - (h / 2) as u32) % 256) as u8;
        let zz = e.z as i32;
        let base: i32 = if zz >= 0 { zz / 32 } else { -((-zz + 31) / 32) };
        let raise = self.is_cave() && (b >= self.assets.bldg_flags.len() || self.assets.bldg_flags[b] & 4 == 0);
        assert(o.bldg_def(i as int) == Some(d));
        assert(e.act_life > i32::MIN);
        let life: i32 = e.act_life - 1;
        proof {
            assert(cx == centre_cell(e.x));
            assert(cy == centre_cell(e.y));
            assert((cx as int + 256 - w as int / 2) % 256 == (cx as int - w as int / 2) % 256);
            assert((cy as int + 256 - h as int / 2) % 256 == (cy as int - h as int / 2) % 256);
            assert(tlx == w8(centre_cell(e.x) - w as int / 2));
            assert(tly == w8(centre_cell(e.y) - h as int / 2));
            assert(base as int == floor32(e.z));
            assert(raise == o.bldg_raises(e.f71 as int));
        }
        self.set_act_life(i, life);
        let some = w >= 1 && h >= 1;
        if life <= 0 {
            if some {
                self.mc2_building_sweep(tlx, tly, w, h, off);
            } else {
                proof {
                    assert(w * h == 0) by (nonlinear_arith)
                        requires
                            w == 0 || h == 0;
                    assert(o.building_regions@ =~= o.building_regions@ + sweep_regions(
                        o.assets.build_dat@,
                        off as int,
                        tlx,
                        tly,
                        w as int,
                        (w * h) as int,
                    ));
                }
            }
            let gz = self.ground_z(e.x, e.y) as i16;
            self.park_finished(i, gz);
            proof {
                assert(self.ent@ =~= o.ent@.update(
                    i as int,
                    parked(Ent { act_life: life, ..e }, o.ground_spec(e.x, e.y)),
                ));
            }
            return BuildingStep::Finished;
        }
        let ml: i32 = #[verifier::truncate] (e.max_life as i32);
        let first = (ml as i64) - 1 == life as i64;
        let ghost g1 = *self;
        proof {
            assert(forall|j: int| 0 <= j < o.ent.len() && j != i ==> g1.ent[j] == o.ent[j]);
        }
        if some {
            self.mc2_building_rise(i, tlx, tly, w, h, off, base, life, raise, e.id24, first);
            proof {
                Gen::lemma_rising_post_from_set(o, g1, *self, i as int, tlx, tly, w as int, (w * h) as int,
                    off as int, base as int, life as int, raise, e.id24, first);
            }
        } else {
            proof {
                reveal(Gen::rising_post);
                assert(w * h == 0) by (nonlinear_arith)
                    requires
                        w == 0 || h == 0;
                assert(o.building_regions@ =~= o.building_regions@ + lerp_regions(
                    o.t.angle@,
                    o.assets.build_dat@,
                    off as int,
                    tlx,
                    tly,
                    w as int,
                    0,
                ));
                assert(o.paints@ =~= o.paints@ + cell_paints(o.assets.build_dat@, off as int, tlx, tly, w as int, 0));
                assert(o.paints@ =~= o.paints@ + Seq::<(u8, u8, u8, u8)>::empty());
                assert forall|j: int| 1 <= j < o.ent.len() && j != i implies footprint_purged(
                    o.ent[j],
                    tlx,
                    tly,
                    w as int,
                    0,
                    e.id24,
                ) == o.ent[j] by {
                    assert(!in_cells(tlx, tly, w as int, 0, tile_at_spec(o.ent[j].x, o.ent[j].y)));
                }
            }
        }
        BuildingStep::Rising
    }

    /// The rising ticks' terrain work (see [`Self::mc2_building_tick`]):
    /// the footprint purge by `owner` when `first`, the lerp, and on the
    /// cadence ticks the paint.
    #[verifier::spinoff_prover]
    #[verifier::rlimit(60)]
    pub fn mc2_building_rise(&mut self, i: usize, tlx: u8, tly: u8, w: usize, h: usize, off: usize, base: i32, life: i32, raise: bool, owner: u16, first: bool)
        requires
            old(self).wf(),
            1 <= i < old(self).ent.len(),
            old(self).ent[i as int].id24 == owner,
            old(self).ent[i as int].act_life == life,
            1 <= w <= 255,
            1 <= h <= 255,
            off + 2 * w * h <= old(self).assets.build_dat.len(),
            life >= 1,
            -1024 <= base <= 1023,
            raise ==> old(self).t.ceiling.len() > 0,
        ensures
            final(self).wf(),
            final(self).sounds == old(self).sounds,
            final(self).assets == old(self).assets,
            final(self).ent.len() == old(self).ent.len(),
            old(self).rising_post(*final(self), i as int, tlx, tly, w as int, (w * h) as int, off as int,
                base as int, life as int, raise, owner, first),
            final(self).mc2_castle_research == old(self).mc2_castle_research,
            final(self).mc2_cast_xp == old(self).mc2_cast_xp,
            final(self).rival_ents == old(self).rival_ents,
            final(self).mc2_life_scale == old(self).mc2_life_scale,
            final(self).castle_alert == old(self).castle_alert,
            final(self).balloon_alert == old(self).balloon_alert,
            final(self).terrain_dirty == old(self).terrain_dirty,
            final(self).mc2_spell_tokens == old(self).mc2_spell_tokens,
            final(self).mc2_rebound_precise == old(self).mc2_rebound_precise,
    {
        if first {
            self.mc2_building_footprint_kill(tlx, tly, w, h, owner);
            proof {
                let e = old(self).ent[i as int];
                assert(footprint_purged(e, tlx, tly, w as int, (w * h) as int, owner) == e);
            }
        }
        let ghost g1 = *self;
        self.mc2_building_lerp(tlx, tly, w, h, off, base, life, raise);
        if life % 5 == 0 || life == 1 {
            let ghost g2 = *self;
            self.mc2_building_paint(tlx, tly, w, h, off);
            proof {
                assert(g2.t.angle.len() == 0x10000);
            }
        }
        proof {
            reveal(Gen::rising_post);
        }
    }

    /// Park record `i` as a static building (state 52).
    pub fn park_invalid(&mut self, i: usize)
        requires
            old(self).wf(),
            i < old(self).ent.len(),
        ensures
            final(self).wf(),
            final(self).ent@ == old(self).ent@.update(i as int, Ent { tick70: 52, ..old(self).ent[i as int] }),
            *final(self) == (Gen { ent: final(self).ent, ..*old(self) }),
    {
        let ghost g0 = *self;
        let mut e = self.ent[i];
        e.tick70 = 52;
        self.ent.set(i, e);
        proof {
            lemma_wf_same_classes(&g0, self);
        }
    }

    /// Record `i`'s life becomes `life`.
    pub fn set_act_life(&mut self, i: usize, life: i32)
        requires
            old(self).wf(),
            i < old(self).ent.len(),
        ensures
            final(self).wf(),
            final(self).ent@ == old(self).ent@.update(i as int, Ent { act_life: life, ..old(self).ent[i as int] }),
            *final(self) == (Gen { ent: final(self).ent, ..*old(self) }),
    {
        let ghost g0 = *self;
        let mut e = self.ent[i];
        e.act_life = life;
        self.ent.set(i, e);
        proof {
            lemma_wf_same_classes(&g0, self);
        }
    }

    /// Park the finished building `i` on the ground at `gz` (see
    /// [`parked`]).
    pub fn park_finished(&mut self, i: usize, gz: i16)
        requires
            old(self).wf(),
            i < old(self).ent.len(),
        ensures
            final(self).wf(),
            final(self).ent@ == old(self).ent@.update(i as int, parked(old(self).ent[i as int], gz as int)),
            *final(self) == (Gen { ent: final(self).ent, ..*old(self) }),
    {
        let ghost g0 = *self;
        let mut e = self.ent[i];
        e.tick70 = 52;
        e.act_life = 1000 * e.f44 as i32;
        e.flags = if e.f144 != 0 { e.flags & !1u32 } else { e.flags | 1 };
        e.site_z = e.z;
        e.z = gz;
        self.ent.set(i, e);
        proof {
            lemma_wf_same_classes(&g0, self);
        }
    }
}

} // verus!
