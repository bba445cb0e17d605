//! MC2 creature primitives shared by every column: the entity LCG
//! draws, the sprite/extent setters, the altitude servo, the 3D
//! distance, target resolution, the footprint purge and the
//! corpse-to-mana scatter.

use vstd::prelude::*;
use crate::pool::{
    Ent, Gen, PLAYER_TARGET, F_REAPED, fresh_ent, lcg_next, polar_spec, tile_at_spec, wrap_diff,
    wdiff, is_isqrt, w16, wi16, tdiv,
};
use crate::mc2::castle::sprite_spec;

verus! {

/// The pose context a creature tick reads: the human wizard's
/// position (he lives outside the pool).
#[derive(Clone, Copy)]
pub struct MobCtx {
    pub px: u16,
    pub py: u16,
    pub pz: i16,
}

/// The altitude servo: sink by `z_step` while above ground, then floor
/// at ground + hover (16-bit wrapping arithmetic).
pub open spec fn alt_core_spec(z: i16, ground: i16, hover: i16, z_step: i16) -> i16 {
    let z1 = if z > ground {
        wi16(z + z_step)
    } else {
        z
    };
    let floor = wi16(ground + hover);
    if z1 <= floor {
        floor
    } else {
        z1
    }
}

/// Is a class-5 model protected from the build purge?
pub open spec fn purge_protected(e: Ent) -> bool {
    e.model65 == 6 || e.model65 == 8 || e.model65 == 10 || e.model65 == 16 || e.model65 == 22
        || e.model65 == 23 || e.model65 == 27 || (e.model65 == 25 && e.tick70 == 200)
}

/// What the build purge of tile `t` by `owner` makes of one record
/// (class 2 records are freed separately).
pub open spec fn purged(e: Ent, t: int, owner: u16) -> Ent {
    if tile_at_spec(e.x, e.y) == t && e.class64 == 5 && e.id24 != owner && !purge_protected(e) {
        Ent { act_life: -1i32, f36: owner, f38: owner, ..e }
    } else if tile_at_spec(e.x, e.y) == t && e.class64 == 2 && e.id24 != owner {
        Ent { class64: 0, flags: e.flags | F_REAPED, ..e }
    } else {
        e
    }
}

impl Gen {
    /// One draw of record `i`'s 16-bit LCG.
    pub fn mc2_rand(&mut self, i: usize) -> (r: u32)
        requires
            i < old(self).ent.len(),
        ensures
            r == lcg_next(old(self).ent[i as int].rand),
            r < 0x10000,
            final(self).ent@ == old(self).ent@.update(
                i as int,
                (Ent { rand: r, ..old(self).ent[i as int] }),
            ),
            final(self).free == old(self).free,
            final(self).sounds == old(self).sounds,
            final(self).keeps_world(old(self)),
    {
        self.ent_rand(i)
    }

    /// Perturb record `i`'s LCG stream by the turn counter (applied
    /// after a draw: the next draw starts from the shifted seed).
    pub fn mc2_rand_perturb(&mut self, i: usize, turn: u32)
        requires
            i < old(self).ent.len(),
        ensures
            final(self).ent@ == old(self).ent@.update(
                i as int,
                (Ent {
                    rand: ((old(self).ent[i as int].rand as int + turn as int) % 0x10000) as u32,
                    ..old(self).ent[i as int]
                }),
            ),
            final(self).free == old(self).free,
            final(self).sounds == old(self).sounds,
            final(self).keeps_world(old(self)),
    {
        let r = self.ent[i].rand;
        self.ent[i].rand = ((r as u64 + turn as u64) % 0x10000) as u32;
    }

    /// The (speed_6, rot_speed_8) pair of a sprite-param row from the
    /// derived table ((0, 0) for a row it does not carry).
    pub fn mc2_params_ext(&self, idx: usize) -> (r: (u16, u16))
        ensures
            r == (if idx < self.assets.mc2_sprite_ext.len() {
                self.assets.mc2_sprite_ext[idx as int]
            } else {
                (0u16, 0u16)
            }),
    {
        if idx < self.assets.mc2_sprite_ext.len() {
            self.assets.mc2_sprite_ext[idx]
        } else {
            (0, 0)
        }
    }

    /// Store sprite-param row `idx` on record `i` and derive its
    /// extent quad (half of each stored value).
    pub fn mc2_set_sprite(&mut self, i: usize, idx: u16)
        requires
            i < old(self).ent.len(),
        ensures
            ({
                let (s6, r8) = if (idx as int) < old(self).assets.mc2_sprite_ext.len() {
                    old(self).assets.mc2_sprite_ext[idx as int]
                } else {
                    (0u16, 0u16)
                };
                final(self).ent@ == old(self).ent@.update(
                    i as int,
                    (Ent {
                        type86: idx,
                        frame88: 0,
                        f78: r8 / 2,
                        f80: s6 / 2,
                        f82: s6 / 2,
                        f84: r8 / 2,
                        ..old(self).ent[i as int]
                    }),
                )
            }),
            final(self).free == old(self).free,
            final(self).sounds == old(self).sounds,
            final(self).keeps_world(old(self)),
    {
        let (s6, r8) = self.mc2_params_ext(idx as usize);
        self.ent[i].type86 = idx;
        self.ent[i].frame88 = 0;
        self.ent[i].f78 = r8 / 2;
        self.ent[i].f80 = s6 / 2;
        self.ent[i].f82 = s6 / 2;
        self.ent[i].f84 = r8 / 2;
    }

    /// Sprite plus the extent quad doubled.
    pub fn mc2_set_sprite_x2(&mut self, i: usize, idx: u16)
        requires
            i < old(self).ent.len(),
        ensures
            ({
                let (s6, r8) = if (idx as int) < old(self).assets.mc2_sprite_ext.len() {
                    old(self).assets.mc2_sprite_ext[idx as int]
                } else {
                    (0u16, 0u16)
                };
                final(self).ent@ == old(self).ent@.update(
                    i as int,
                    (Ent {
                        type86: idx,
                        frame88: 0,
                        f78: r8 / 2,
                        f80: ((s6 / 2) * 2) as u16,
                        f82: ((s6 / 2) * 2) as u16,
                        f84: ((r8 / 2) * 2) as u16,
                        ..old(self).ent[i as int]
                    }),
                )
            }),
            final(self).free == old(self).free,
            final(self).sounds == old(self).sounds,
            final(self).keeps_world(old(self)),
    {
        self.mc2_set_sprite(i, idx);
        self.ent[i].f80 = self.ent[i].f80 * 2;
        self.ent[i].f82 = self.ent[i].f82 * 2;
        self.ent[i].f84 = self.ent[i].f84 * 2;
    }

    /// Box override: pitch = roll = `shift`, fov = `fov`.
    pub fn mc2_shift_rot(&mut self, i: usize, shift: u16, fov: u16)
        requires
            i < old(self).ent.len(),
        ensures
            final(self).ent@ == old(self).ent@.update(
                i as int,
                (Ent { f80: shift, f82: shift, f84: fov, ..old(self).ent[i as int] }),
            ),
            final(self).free == old(self).free,
            final(self).sounds == old(self).sounds,
            final(self).keeps_world(old(self)),
    {
        self.ent[i].f80 = shift;
        self.ent[i].f82 = shift;
        self.ent[i].f84 = fov;
    }

    /// Mana = half the maximum life.
    pub fn mc2_set_mana_half(&mut self, i: usize)
        requires
            i < old(self).ent.len(),
        ensures
            final(self).ent@ == old(self).ent@.update(
                i as int,
                (Ent {
                    f140: (old(self).ent[i as int].max_life / 2) as i32,
                    ..old(self).ent[i as int]
                }),
            ),
            final(self).free == old(self).free,
            final(self).sounds == old(self).sounds,
            final(self).keeps_world(old(self)),
    {
        self.ent[i].f140 = (self.ent[i].max_life / 2) as i32;
    }

    /// The altitude servo: sink by `z_step` while above ground, clamp
    /// to ground + hover.
    pub fn mc2_alt_core(z: &mut i16, ground: i16, hover: i16, z_step: i16)
        ensures
            *final(z) == alt_core_spec(*old(z), ground, hover, z_step),
    {
        if *z > ground {
            *z = z.wrapping_add(z_step);
        }
        let floor = ground.wrapping_add(hover);
        if *z <= floor {
            *z = floor;
        }
    }

    /// 3D distance (16-bit planar deltas): the floor square root of the
    /// squared length.
    pub fn mc2_dist3(a: (u16, u16, i16), b: (u16, u16, i16)) -> (d: u32)
        requires
            ({
                let dx = wrap_diff(a.0, b.0);
                let dy = wrap_diff(a.1, b.1);
                let dz = b.2 as int - a.2 as int;
                dx * dx + dy * dy + dz * dz <= 0x7FFF_FFFF
            }),
        ensures
            ({
                let dx = wrap_diff(a.0, b.0);
                let dy = wrap_diff(a.1, b.1);
                let dz = b.2 as int - a.2 as int;
                is_isqrt(dx * dx + dy * dy + dz * dz, d as int)
            }),
    {
        let dx = wdiff(a.0, b.0) as i64;
        let dy = wdiff(a.1, b.1) as i64;
        let dz = b.2 as i64 - a.2 as i64;
        assert(0 <= dx * dx && 0 <= dy * dy && 0 <= dz * dz) by (nonlinear_arith);
        assert(dx * dx <= 0x4000_0000 && dy * dy <= 0x4000_0000) by (nonlinear_arith)
            requires
                -0x8000 <= dx < 0x8000,
                -0x8000 <= dy < 0x8000,
        ;
        assert(dz * dz <= 0x1_0000_0000) by (nonlinear_arith)
            requires
                -0x10000 <= dz <= 0x10000,
        ;
        Self::isqrt((dx * dx + dy * dy + dz * dz) as u32)
    }

    /// Is record `j` a live resolvable target?
    pub open spec fn target_live(&self, j: int) -> bool {
        &&& 1 <= j < self.ent.len()
        &&& self.ent[j].class64 != 0
        &&& self.ent[j].act_life >= 0
        &&& self.ent[j].flags & F_REAPED == 0
    }

    /// Resolve a target slot to its position: the human through the
    /// pose context, a pool record only while it is live.
    pub fn mc2_target(&self, slot: u16, ctx: &MobCtx) -> (r: Option<(u16, u16, i16)>)
        ensures
            slot == PLAYER_TARGET ==> r == Some((ctx.px, ctx.py, ctx.pz)),
            slot != PLAYER_TARGET ==> r == (if self.target_live(slot as int) {
                Some(
                    (
                        self.ent[slot as int].x,
                        self.ent[slot as int].y,
                        self.ent[slot as int].z,
                    ),
                )
            } else {
                None
            }),
    {
        if slot == PLAYER_TARGET {
            return Some((ctx.px, ctx.py, ctx.pz));
        }
        let j = slot as usize;
        if j == 0 || j >= self.ent.len() {
            return None;
        }
        let t = &self.ent[j];
        if t.class64 == 0 || t.act_life < 0 || t.flags & F_REAPED != 0 {
            return None;
        }
        Some((t.x, t.y, t.z))
    }

    /// The build purge of tile `t` (the rising castle executes what
    /// stands on it): every record on the tile not owned by `owner` —
    /// class 2 is freed; class 5 dies (life −1, killer/attacker =
    /// `owner`) unless its model is protected.
    pub fn mc2_building_clear_tile(&mut self, t: usize, owner: u16)
        requires
            old(self).wf(),
        ensures
            final(self).wf(),
            final(self).keeps_world(old(self)),
            final(self).sounds == old(self).sounds,
            final(self).ent.len() == old(self).ent.len(),
            final(self).ent[0] == old(self).ent[0],
            forall|j: int|
                1 <= j < old(self).ent.len() ==> #[trigger] final(self).ent[j] == purged(
                    old(self).ent[j],
                    t as int,
                    owner,
                ),
            final(self).free@.len() >= old(self).free@.len(),
            forall|k: int| 0 <= k < old(self).free@.len() ==> #[trigger] final(self).free@[k] == old(self).free@[k],
    {
        let n = self.ent.len();
        let mut j: usize = 1;
        while j < n
            invariant
                self.wf(),
                n == self.ent.len(),
                n == old(self).ent.len(),
                1 <= j <= n,
                self.keeps_world(old(self)),
                self.sounds == old(self).sounds,
                self.ent[0] == old(self).ent[0],
                forall|q: int| 1 <= q < j ==> #[trigger] self.ent[q] == purged(old(self).ent[q], t as int, owner),
                forall|q: int| j <= q < n ==> #[trigger] self.ent[q] == old(self).ent[q],
                self.free@.len() >= old(self).free@.len(),
                forall|k: int| 0 <= k < old(self).free@.len() ==> #[trigger] self.free@[k] == old(self).free@[k],
            decreases n - j,
        {
            let e = self.ent[j];
            let on = crate::pool::tile((e.x / 256) as u8, (e.y / 256) as u8) == t;
            if on && e.id24 != owner {
                if e.class64 == 2 {
                    self.free_entity(j);
                } else if e.class64 == 5 {
                    let m = e.model65;
                    let protected = m == 6 || m == 8 || m == 10 || m == 16 || m == 22 || m == 23
                        || m == 27 || (m == 25 && e.tick70 == 200);
                    if !protected {
                        self.ent[j].act_life = -1;
                        self.ent[j].f36 = owner;
                        self.ent[j].f38 = owner;
                    }
                }
            }
            j = j + 1;
        }
    }

    /// The (10,2) speed puff: an ambient marker with life 8 placed
    /// directly at (x, y, z), no map link.
    pub fn mc2_spawn_speed_puff(&mut self, x: u16, y: u16, z: i16) -> (r: Option<usize>)
        requires
            old(self).wf(),
        ensures
            final(self).wf(),
            final(self).keeps_world(old(self)),
            final(self).sounds == old(self).sounds,
            match r {
                Some(i) => {
                    &&& old(self).free.len() > 0
                    &&& i == old(self).free@.last()
                    &&& final(self).free@ == old(self).free@.drop_last()
                    &&& final(self).slot_ok(i as int)
                    &&& final(self).same_except(old(self), i as int, i as int)
                    &&& final(self).ent[i as int] == (Ent {
                        class64: 10,
                        model65: 2,
                        tick70: 2,
                        max_life: 8,
                        act_life: 8,
                        f26: 0,
                        flags: (fresh_ent(i as int).flags & !0x2_0009u32) | 0x2_0001u32,
                        x,
                        y,
                        z,
                        ..fresh_ent(i as int)
                    })
                },
                None => {
                    &&& old(self).free.len() == 0
                    &&& final(self).free@ == old(self).free@
                    &&& final(self).ent == old(self).ent
                },
            },
    {
        let i = match self.new_event() {
            Some(i) => i,
            None => return None,
        };
        self.ent[i].class64 = 10;
        self.ent[i].model65 = 2;
        self.ent[i].tick70 = 2;
        self.ent[i].max_life = 8;
        self.ent[i].act_life = 8;
        self.ent[i].f26 = 0;
        self.ent[i].flags = (self.ent[i].flags & !0x2_0009u32) | 0x2_0001u32;
        self.ent[i].x = x;
        self.ent[i].y = y;
        self.ent[i].z = z;
        Some(i)
    }
}


/// Record `e` with its life filled to the maximum (saturating at
/// `i32::MAX`).
pub open spec fn refilled(e: Ent) -> Ent {
    Ent { act_life: if e.max_life <= 0x7FFF_FFFF { e.max_life as i32 } else { 0x7FFF_FFFFi32 }, ..e }
}

/// The stagger phase of slot `i`: `i mod 11`.
pub open spec fn phase11(i: int) -> i16 {
    (i % 11) as i16
}

/// The standing stone (2,1) in slot `i` at (x, y, z): state 3,
/// non-collidable (flag bit 3 clear), the slot's stagger phase, full
/// life, sprite row 79.
pub open spec fn stone_spec(g: &Gen, i: int, x: u16, y: u16, z: i16) -> Ent {
    let f = fresh_ent(i);
    sprite_spec(g, refilled(Ent {
        class64: 2, model65: 1, tick70: 3, f26: phase11(i), flags: f.flags & !8u32, x, y, z, ..f
    }), 79)
}

/// The dolmen (2,2) in slot `i` at (x, y, z): state 6,
/// non-collidable, the stagger phase, full life, sprite row 39, the
/// box overridden to (1024, 1024, 1024).
pub open spec fn dolmen_spec(g: &Gen, i: int, x: u16, y: u16, z: i16) -> Ent {
    let f = fresh_ent(i);
    let s = sprite_spec(g, refilled(Ent {
        class64: 2, model65: 2, tick70: 6, f26: phase11(i), flags: f.flags & !8u32, x, y, z, ..f
    }), 39);
    Ent { f80: 1024, f82: 1024, f84: 1024, ..s }
}

/// The ground fire (10,0) in slot `i` at (x, y, z): life 8 of 8,
/// area-damage amount 400, burnable intake closed, non-collidable with
/// flag bit 17 set, sprite row 7, the box (128, 128, 128).
pub open spec fn fire_spec(g: &Gen, i: int, x: u16, y: u16, z: i16) -> Ent {
    let f = fresh_ent(i);
    let s = sprite_spec(g, Ent {
        class64: 10, model65: 0, tick70: 0, max_life: 8, act_life: 8, f140: 400, f56: 0,
        flags: (f.flags & !0x2_0008u32) | 0x2_0000u32, x, y, z, ..f
    }, 7);
    Ent { f80: 128, f82: 128, f84: 128, ..s }
}

/// The big explosion (10,1) in slot `i` at (x, y, z): a one-tick
/// seeder (state 1, life 1 of 1), amount 400, ring span 0, the fire's
/// flags, sprite row 41.
pub open spec fn big_explosion_spec(g: &Gen, i: int, x: u16, y: u16, z: i16) -> Ent {
    let f = fresh_ent(i);
    sprite_spec(g, Ent {
        class64: 10, model65: 1, tick70: 1, max_life: 1, act_life: 1, f140: 400, f26: 0,
        flags: (f.flags & !0x2_0008u32) | 0x2_0000u32, x, y, z, ..f
    }, 41)
}

/// The tree (2,0) in slot `i` near (x, y, z): the stagger phase,
/// burnable on channel 0 (f56 and f28 set), four draws of the slot's
/// LCG: the first a life roll that the refill overwrites, the next two
/// a jitter of `(r & 63) − 32` on each axis, the last picking sprite
/// row 84 (odd) or 83 (even); full life.
pub open spec fn tree_spec(g: &Gen, i: int, x: u16, y: u16, z: i16) -> Ent {
    let f = fresh_ent(i);
    let r1 = lcg_next(f.rand);
    let r2 = lcg_next(r1);
    let r3 = lcg_next(r2);
    let r4 = lcg_next(r3);
    let jx = (r2 & 0x3F) as int - 32;
    let jy = (r3 & 0x3F) as int - 32;
    sprite_spec(g, refilled(Ent {
        class64: 2, model65: 0, tick70: 0, f26: phase11(i), f56: 1, f28: 1, rand: r4,
        x: w16(x + jx), y: w16(y + jy), z, ..f
    }), if r4 & 1 != 0 { 84u16 } else { 83u16 })
}

/// What a spawner leaves: on `Some(i)` the last free slot taken and
/// filled with `rec`; on `None` (no free slot) nothing.
pub open spec fn spawned(o: &Gen, f: &Gen, r: Option<usize>, rec: spec_fn(int) -> Ent) -> bool {
    &&& f.wf()
    &&& f.keeps_world(o)
    &&& f.sounds == o.sounds
    &&& match r {
        Some(i) => {
            &&& o.free.len() > 0
            &&& i == o.free@.last()
            &&& f.free@ == o.free@.drop_last()
            &&& f.ent@ == o.ent@.update(i as int, rec(i as int))
        },
        None => {
            &&& o.free.len() == 0
            &&& f.free@ == o.free@
            &&& f.ent == o.ent
        },
    }
}

impl Gen {
    /// The standing stone constructor (see [`stone_spec`]).
    pub fn mc2_spawn_stone(&mut self, x: u16, y: u16, z: i16) -> (r: Option<usize>)
        requires
            old(self).wf(),
        ensures
            spawned(old(self), final(self), r, |k: int| stone_spec(old(self), k, x, y, z)),
    {
        let i = match self.new_event() {
            Some(i) => i,
            None => return None,
        };
        self.ent[i].class64 = 2;
        self.ent[i].model65 = 1;
        self.ent[i].tick70 = 3;
        self.ent[i].f26 = (i % 11) as i16;
        self.ent[i].flags = self.ent[i].flags & !8u32;
        self.link(i, x, y, z);
        self.refill_life(i);
        self.mc2_set_sprite(i, 79);
        assert(self.ent@ =~= old(self).ent@.update(i as int, stone_spec(old(self), i as int, x, y, z)));
        Some(i)
    }

    /// The dolmen constructor (see [`dolmen_spec`]).
    pub fn mc2_spawn_dolmen(&mut self, x: u16, y: u16, z: i16) -> (r: Option<usize>)
        requires
            old(self).wf(),
        ensures
            spawned(old(self), final(self), r, |k: int| dolmen_spec(old(self), k, x, y, z)),
    {
        let i = match self.new_event() {
            Some(i) => i,
            None => return None,
        };
        self.ent[i].class64 = 2;
        self.ent[i].model65 = 2;
        self.ent[i].tick70 = 6;
        self.ent[i].f26 = (i % 11) as i16;
        self.ent[i].flags = self.ent[i].flags & !8u32;
        self.link(i, x, y, z);
        self.refill_life(i);
        self.mc2_set_sprite(i, 39);
        self.mc2_shift_rot(i, 1024, 1024);
        assert(self.ent@ =~= old(self).ent@.update(i as int, dolmen_spec(old(self), i as int, x, y, z)));
        Some(i)
    }

    /// The ground fire constructor (see [`fire_spec`]).
    pub fn mc2_spawn_fire(&mut self, x: u16, y: u16, z: i16) -> (r: Option<usize>)
        requires
            old(self).wf(),
        ensures
            spawned(old(self), final(self), r, |k: int| fire_spec(old(self), k, x, y, z)),
    {
        let i = match self.new_event() {
            Some(i) => i,
            None => return None,
        };
        self.ent[i].class64 = 10;
        self.ent[i].model65 = 0;
        self.ent[i].tick70 = 0;
        self.ent[i].max_life = 8;
        self.ent[i].f140 = 400;
        self.ent[i].f56 = 0;
        self.ent[i].flags = (self.ent[i].flags & !0x2_0008u32) | 0x2_0000u32;
        self.link(i, x, y, z);
        self.ent[i].act_life = 8;
        self.mc2_set_sprite(i, 7);
        self.mc2_shift_rot(i, 128, 128);
        assert(self.ent@ =~= old(self).ent@.update(i as int, fire_spec(old(self), i as int, x, y, z)));
        Some(i)
    }

    /// The big explosion constructor (see [`big_explosion_spec`]).
    pub fn mc2_spawn_big_explosion(&mut self, x: u16, y: u16, z: i16) -> (r: Option<usize>)
        requires
            old(self).wf(),
        ensures
            spawned(old(self), final(self), r, |k: int| big_explosion_spec(old(self), k, x, y, z)),
    {
        let i = match self.new_event() {
            Some(i) => i,
            None => return None,
        };
        self.ent[i].class64 = 10;
        self.ent[i].model65 = 1;
        self.ent[i].tick70 = 1;
        self.ent[i].max_life = 1;
        self.ent[i].f140 = 400;
        self.ent[i].f26 = 0;
        self.ent[i].flags = (self.ent[i].flags & !0x2_0008u32) | 0x2_0000u32;
        self.link(i, x, y, z);
        self.ent[i].act_life = 1;
        self.mc2_set_sprite(i, 41);
        assert(self.ent@ =~= old(self).ent@.update(i as int, big_explosion_spec(old(self), i as int, x, y, z)));
        Some(i)
    }

    /// The tree constructor (see [`tree_spec`]).
    #[verifier::spinoff_prover]
    #[verifier::rlimit(40)]
    pub fn mc2_spawn_tree(&mut self, x: u16, y: u16, z: i16) -> (r: Option<usize>)
        requires
            old(self).wf(),
        ensures
            spawned(old(self), final(self), r, |k: int| tree_spec(old(self), k, x, y, z)),
    {
        let i = match self.new_event() {
            Some(i) => i,
            None => return None,
        };
        self.ent[i].class64 = 2;
        self.ent[i].model65 = 0;
        self.ent[i].tick70 = 0;
        self.ent[i].f26 = (i % 11) as i16;
        self.ent[i].f56 = 1;
        self.ent[i].f28 = 1;
        let d = self.mc2_rand(i);
        self.ent[i].act_life = (d % 0x1388 + 2500) as i32;
        let r2 = self.mc2_rand(i);
        let r3 = self.mc2_rand(i);
        assert(r2 & 0x3F <= 0x3F && r3 & 0x3F <= 0x3F) by (bit_vector);
        let jx: i32 = (r2 & 0x3F) as i32 - 32;
        let jy: i32 = (r3 & 0x3F) as i32 - 32;
        let nx = ((x as i32 + jx + 0x10000) % 0x10000) as u16;
        let ny = ((y as i32 + jy + 0x10000) % 0x10000) as u16;
        self.link(i, nx, ny, z);
        self.refill_life(i);
        let d = self.mc2_rand(i);
        self.mc2_set_sprite(i, if d & 1 != 0 { 84 } else { 83 });
        assert(self.ent@ =~= old(self).ent@.update(i as int, tree_spec(old(self), i as int, x, y, z)));
        Some(i)
    }
}


/// The wander turn of a record whose two draws were `v` then `r`: a
/// side (left when `v mod 157 < 79`, else right) and a magnitude of
/// `(r & 255) + 85`, added to the desired yaw on the 2048 circle.
pub open spec fn wander_yaw(yaw: u16, v: u32, r: u32) -> u16 {
    let mag = (r & 0xFF) + 85;
    let step: int = if (v % 0x9D) / 79 == 0 { -mag } else { mag };
    ((yaw + step) % 0x800) as u16
}

impl Gen {
    /// The altitude commit: the servo of record `i`'s behavior row
    /// (hover v_12, step v_14) over the ground at its position, the
    /// record relinked in place at the new height.
    pub fn mc2_alt_commit(&mut self, i: usize)
        requires
            old(self).wf(),
            i < old(self).ent.len(),
            (old(self).ent[i as int].row156 as int) < old(self).assets.behavior.len(),
        ensures
            ({
                let e = old(self).ent[i as int];
                let row = old(self).assets.behavior[e.row156 as int];
                final(self).ent@ == old(self).ent@.update(i as int, (Ent {
                    z: alt_core_spec(e.z, old(self).ground_spec(e.x, e.y) as i16, row.v_12, row.v_14),
                    ..e
                }))
            }),
            final(self).free == old(self).free,
            final(self).sounds == old(self).sounds,
            final(self).keeps_world(old(self)),
    {
        let row = self.assets.behavior[self.ent[i].row156 as usize];
        let x = self.ent[i].x;
        let y = self.ent[i].y;
        let ground = self.ground_z(x, y) as i16;
        let mut z = self.ent[i].z;
        Self::mc2_alt_core(&mut z, ground, row.v_12, row.v_14);
        self.move_relink(i, x, y, z);
    }

    /// The wander turn (see [`wander_yaw`]): two draws of record `i`'s
    /// LCG turn its desired yaw (f34) by 85..340 to a drawn side.
    #[verifier::spinoff_prover]
    pub fn mc2_wander_turn(&mut self, i: usize)
        requires
            i < old(self).ent.len(),
        ensures
            ({
                let e = old(self).ent[i as int];
                let v = lcg_next(e.rand);
                let r = lcg_next(v);
                final(self).ent@ == old(self).ent@.update(i as int, (Ent { rand: r, f34: wander_yaw(e.f34, v, r), ..e }))
            }),
            final(self).free == old(self).free,
            final(self).sounds == old(self).sounds,
            final(self).keeps_world(old(self)),
    {
        let v = self.mc2_rand(i);
        let r = self.mc2_rand(i);
        assert(r & 0xFF <= 0xFF) by (bit_vector);
        let mag: i32 = ((r & 0xFF) + 85) as i32;
        let step: i32 = if (v % 0x9D) / 79 == 0 { -mag } else { mag };
        let yaw = self.ent[i].f34 as i32;
        let ghost w = yaw + step;
        proof {
            vstd::arithmetic::div_mod::lemma_mod_multiples_vanish(32, w, 0x800);
        }
        self.ent[i].f34 = ((yaw + step + 0x10000) % 0x800) as u16;
        proof {
            let e = old(self).ent[i as int];
            assert(self.ent[i as int].f34 == wander_yaw(e.f34, v, r));
            assert(self.ent@ =~= old(self).ent@.update(i as int, (Ent { rand: r, f34: wander_yaw(e.f34, v, r), ..e })));
        }
    }

    /// Drop the archer's aim: back to its minimum speed, sprite row 0,
    /// the box (128, 128, 256), the aim lanes reset (f66 = 3, f67 =
    /// 0xFF).
    pub fn archer_unaim(&mut self, i: usize)
        requires
            i < old(self).ent.len(),
        ensures
            ({
                let e = old(self).ent[i as int];
                let s = sprite_spec(old(self), Ent { f126: e.speed128, ..e }, 0);
                final(self).ent@ == old(self).ent@.update(i as int, (Ent {
                    f80: 128, f82: 128, f84: 256, f66: 3, f67: 0xFF, ..s
                }))
            }),
            final(self).free == old(self).free,
            final(self).sounds == old(self).sounds,
            final(self).keeps_world(old(self)),
    {
        self.ent[i].f126 = self.ent[i].speed128;
        self.mc2_set_sprite(i, 0);
        self.mc2_shift_rot(i, 128, 256);
        self.ent[i].f66 = 3;
        self.ent[i].f67 = 0xFF;
        proof {
            let e = old(self).ent[i as int];
            let s = sprite_spec(old(self), Ent { f126: e.speed128, ..e }, 0);
            assert(self.ent@ =~= old(self).ent@.update(i as int, (Ent {
                f80: 128, f82: 128, f84: 256, f66: 3, f67: 0xFF, ..s
            })));
        }
    }

    /// The position a doom summon homes on: the human's pose for his
    /// sentinel; a standing pool record's (not reaped, life ≥ 0);
    /// nothing for slot 0, a slot beyond the pool or a dead record.
    pub open spec fn doom_target_pos_spec(&self, t: u16, ctx: MobCtx) -> Option<(u16, u16, i16)> {
        if t == PLAYER_TARGET {
            Some((ctx.px, ctx.py, ctx.pz))
        } else if t == 0 || t as int >= self.ent.len() {
            None
        } else {
            let e = self.ent[t as int];
            if e.flags & 0x400 != 0 || e.act_life < 0 {
                None
            } else {
                Some((e.x, e.y, e.z))
            }
        }
    }

    /// The doom summon's homing position (see
    /// [`Self::doom_target_pos_spec`]).
    pub fn mc2_doom_target_pos(&self, t: u16, ctx: &MobCtx) -> (r: Option<(u16, u16, i16)>)
        ensures
            r == self.doom_target_pos_spec(t, *ctx),
    {
        if t == PLAYER_TARGET {
            return Some((ctx.px, ctx.py, ctx.pz));
        }
        let j = t as usize;
        if j == 0 || j >= self.ent.len() {
            return None;
        }
        let e = &self.ent[j];
        if e.flags & 0x400 != 0 || e.act_life < 0 {
            return None;
        }
        Some((e.x, e.y, e.z))
    }
}


/// The first action number of the goat's states.
pub const GOAT_BASE: u8 = 8;

impl Gen {
    /// The goat's post-move speed fixup: in its flee-run state
    /// (`GOAT_BASE + 6`) the current speed drops to the minimum.
    pub fn goat_speed_fixup(&mut self, i: usize)
        requires
            i < old(self).ent.len(),
        ensures
            ({
                let e = old(self).ent[i as int];
                if e.tick70 == GOAT_BASE + 6 {
                    final(self).ent@ == old(self).ent@.update(i as int, (Ent { f126: e.speed128, ..e }))
                } else {
                    final(self).ent == old(self).ent
                }
            }),
            final(self).free == old(self).free,
            final(self).sounds == old(self).sounds,
            final(self).keeps_world(old(self)),
    {
        if self.ent[i].tick70 == GOAT_BASE + 6 {
            self.ent[i].f126 = self.ent[i].speed128;
        }
    }

    /// The goat's screech roll: one draw of its LCG; sound 46 when the
    /// draw is a multiple of `modulus`.
    pub fn goat_snd(&mut self, i: usize, modulus: u32)
        requires
            old(self).wf(),
            i < old(self).ent.len(),
            modulus > 0,
        ensures
            ({
                let e = old(self).ent[i as int];
                let r = lcg_next(e.rand);
                &&& final(self).ent@ == old(self).ent@.update(i as int, (Ent { rand: r, ..e }))
                &&& final(self).sounds@ == if r % modulus == 0 {
                    old(self).sounds@.push((46u8, i as u16))
                } else {
                    old(self).sounds@
                }
            }),
            final(self).free == old(self).free,
            final(self).keeps_world(old(self)),
    {
        if self.mc2_rand(i) % modulus == 0 {
            self.snd(46, i);
        }
    }
}

} // verus!
