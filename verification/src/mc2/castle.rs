//! The MC2 castle column — class-3 model-2 and its court: the three
//! castle actions (4 = standing, 5 = build state machine, 6 = destroy
//! one level), the HP/capacity ladder, the straight-subtract intake,
//! the sphere-absorb and overflow-eject mana economy, the (3,3)
//! balloon fleet, the (5,15) guard slots, the (10,42) build painter
//! and the (10,79) defender stage pieces.

use vstd::prelude::*;
use crate::pool::{
    lemma_wf_same_classes, Ent, Gen, BuildDef, Planes, SubSpell, lcg_next, PLAYER_TARGET, F_REAPED, fresh_ent, tile, tile_spec, tile_at_spec, w8,
    w16, wi16, wrap_diff, wdiff, tdiv, WorldPatches, dist2_spec, is_isqrt,
};
use crate::terrain::{abs_diff, smoothed, smoothed_row, smoothed_region};
use crate::mc2::cast::{ext_of, creator_spec, cast_proj_spec, dispatch_arm_spec};
use crate::world::World;
use crate::mc2::mobs::{purged, alt_core_spec};
use crate::mc2::{color_art, color_art_spec};

verus! {

/// Capacity by castle level (the level-7 rung is a sentinel).
pub const MC2_CASTLE_CAP: [i32; 8] = [5000, 8500, 18000, 38800, 78600, 158200, 317400, 300_000_000];

/// Maximum life by castle level, before the owner's Life scaling
/// (level 0 skips the life write).
pub const MC2_CASTLE_HP: [u32; 8] = [0, 20000, 40000, 40000, 60000, 60000, 80000, 80000];

/// The "upgrade armed" latch the standing tick converts into action 5.
pub const F_UPGRADE_ARMED: u32 = 0x40;

/// The painter's kill bit: while set, every footprint cell the rising
/// castle touches is purged on every tick of the rise (the level-up
/// painter carries it, the repaint painter does not).
pub const F_BUILD_KILL: u32 = 0x20_0000;

/// The (balloons, guards) quota by castle level.
pub open spec fn quota_spec(lvl: i16) -> (usize, usize) {
    if lvl == 1 || lvl == 2 {
        (1, 0)
    } else if lvl == 3 {
        (1, 4)
    } else if lvl == 4 {
        (2, 6)
    } else if lvl == 5 {
        (2, 14)
    } else if lvl == 6 {
        (3, 18)
    } else if lvl == 7 {
        (3, 34)
    } else {
        (0, 0)
    }
}

/// The (balloons, guards) quota by castle level.
pub fn mc2_castle_quota(lvl: i16) -> (q: (usize, usize))
    ensures
        q == quota_spec(lvl),
{
    match lvl {
        1 | 2 => (1, 0),
        3 => (1, 4),
        4 => (2, 6),
        5 => (2, 14),
        6 => (3, 18),
        7 => (3, 34),
        _ => (0, 0),
    }
}

/// The defender piece offsets (tiles from the footprint's NW corner)
/// per castle level.
pub open spec fn stage_parts_spec(lvl: u8) -> Seq<(u8, u8)> {
    let l = if lvl > 7 {
        7
    } else {
        lvl
    };
    if l == 0 {
        seq![]
    } else if l == 1 {
        seq![(4u8, 4u8)]
    } else if l <= 3 {
        seq![(3u8, 3u8), (17, 3), (3, 17), (17, 17)]
    } else if l <= 5 {
        seq![(3u8, 3u8), (31, 3), (3, 31), (31, 31)]
    } else {
        seq![(3u8, 3u8), (24, 3), (45, 3), (3, 24), (45, 24), (3, 45), (24, 45), (45, 45)]
    }
}

/// The defender piece offsets for castle level `lvl` (levels past 7
/// read level 7's list).
pub fn mc2_stage_parts(lvl: u8) -> (v: Vec<(u8, u8)>)
    ensures
        v@ == stage_parts_spec(lvl),
{
    let l = if lvl > 7 { 7 } else { lvl };
    let v: Vec<(u8, u8)> = if l == 0 {
        vec![]
    } else if l == 1 {
        vec![(4, 4)]
    } else if l <= 3 {
        vec![(3, 3), (17, 3), (3, 17), (17, 17)]
    } else if l <= 5 {
        vec![(3, 3), (31, 3), (3, 31), (31, 31)]
    } else {
        vec![(3, 3), (24, 3), (45, 3), (3, 24), (45, 24), (3, 45), (24, 45), (45, 45)]
    };
    assert(v@ =~= stage_parts_spec(lvl));
    v
}

/// The half-extent of a footprint dimension: `((dim << 8) + 1280) >> 1`
/// in 16-bit arithmetic.
pub open spec fn half_spec(dim: u8) -> u16 {
    (((dim as int * 256 + 1280) % 0x10000) / 2) as u16
}

/// The anchor tile of coordinate `c`, `o` tiles back (wrapping).
pub fn anchor_minus(c: u16, o: u16) -> (r: u8)
    requires
        o <= 255,
    ensures
        r == w8(anchor(c) - o),
{
    ((((c as u32 + 128) % 0x10000) / 256 + 256 - o as u32) % 256) as u8
}

/// The half-extent of a footprint dimension (see [`half_spec`]).
pub fn half_extent(dim: u8) -> (h: u16)
    ensures
        h == half_spec(dim),
{
    (((dim as u32 * 256 + 1280) % 0x10000) / 2) as u16
}

/// `v` clamped to [lo, hi].
pub open spec fn clamp_spec(v: int, lo: int, hi: int) -> int {
    if v < lo {
        lo
    } else if v > hi {
        hi
    } else {
        v
    }
}

/// The first player slot whose wizard is `own` (0 when none is).
pub open spec fn owner_slot_spec(g: &Gen, own: u16) -> int {
    if exists|k: int| 0 <= k < 8 && g.rival_ents[k] != 0 && #[trigger] g.rival_ents[k] == own {
        choose|k: int|
            0 <= k < 8 && g.rival_ents[k] != 0 && #[trigger] g.rival_ents[k] == own && forall|q: int|
                0 <= q < k ==> !(g.rival_ents[q] != 0 && #[trigger] g.rival_ents[q] == own)
    } else {
        0
    }
}

/// The record the HP/capacity ladder makes of castle `e` on chassis
/// `g`: HP = base[level] · Life / 256 (Life = the owner's personality
/// scalar), skipped when 0; an overkill life carries as debt capped at
/// half the new maximum; capacity = the level's rung.
pub open spec fn ladder_spec(g: &Gen, e: Ent) -> Ent {
    let lvl = clamp_spec(e.f26 as int, 0, 7);
    let factor = g.mc2_life_scale[owner_slot_spec(g, e.id24)] as int;
    let hp = MC2_CASTLE_HP@[lvl] as int * factor / 256;
    let debt = if e.act_life < 0 {
        if -(e.act_life as int) < hp / 2 {
            -(e.act_life as int)
        } else {
            hp / 2
        }
    } else {
        0
    };
    let e1 = if hp != 0 {
        Ent { max_life: hp as u32, act_life: (hp - debt) as i32, ..e }
    } else {
        e
    };
    Ent { f136: MC2_CASTLE_CAP@[lvl], ..e1 }
}

/// The extents a BUILD00 row gives a record.
pub open spec fn extents_spec(e: Ent, d: BuildDef) -> Ent {
    Ent { f80: half_spec(d.w), f82: half_spec(d.h), f84: 0x4000, ..e }
}

/// The upgrade's next level: level + 1 clamped to 1..=7.
pub open spec fn next_level(lvl: i16) -> int {
    clamp_spec(lvl as int + 1, 1, 7)
}

/// Is record `e` a live owned mana sphere of `own`?
pub open spec fn is_sphere_of(e: Ent, own: u16) -> bool {
    e.class64 == 10 && e.model65 == 39 && e.flags & F_REAPED == 0 && e.f144 == own
}

/// Is record `e` a live building owned by `own`?
pub open spec fn is_bank_building(e: Ent, own: u16) -> bool {
    e.class64 == 10 && e.model65 == 45 && e.flags & F_REAPED == 0 && e.f144 == own
}

/// The summed positive mana of `own`'s buildings among the first `n`
/// records.
pub open spec fn bank_sum(s: Seq<Ent>, own: u16, n: int) -> int
    decreases n,
{
    if n <= 0 {
        0
    } else {
        bank_sum(s, own, n - 1) + if n - 1 >= 1 && is_bank_building(s[n - 1], own) && s[n - 1].f140 > 0 {
            s[n - 1].f140 as int
        } else {
            0
        }
    }
}

proof fn lemma_bank_sum_bounds(s: Seq<Ent>, own: u16, n: int)
    ensures
        0 <= bank_sum(s, own, n) <= (if n < 0 { 0 } else { n }) * 0x7FFF_FFFF,
    decreases n,
{
    if n > 0 {
        lemma_bank_sum_bounds(s, own, n - 1);
    }
}

/// What the pre-clear does to record `e` in slot `j` for castle `c`
/// (slot `i`) whose next footprint has half-extents (hw, hh): a
/// live building whose box touches the box dies and loses its
/// degradation link.
pub open spec fn preclear_spec(e: Ent, j: int, c: Ent, i: int, hw: int, hh: int) -> Ent {
    if j != i && e.class64 == 10 && e.model65 == 45 && e.flags & F_REAPED == 0 && abs_diff(e.x, c.x)
        <= e.f80 as int + hw && abs_diff(e.y, c.y) <= e.f82 as int + hh {
        Ent { act_life: -1i32, f46: 0i16, ..e }
    } else {
        e
    }
}

/// The index of the first entry of `r` keyed by `own`, if any.
#[verifier::opaque]
pub open spec fn research_ix_in(r: Seq<(u16, [u8; 7], [u8; 7])>, own: u16) -> Option<int> {
    if exists|k: int| 0 <= k < r.len() && (#[trigger] r[k]).0 == own {
        Some(choose|k: int| 0 <= k < r.len() && (#[trigger] r[k]).0 == own && forall|q: int| 0 <= q < k ==> (#[trigger] r[q]).0 != own)
    } else {
        None
    }
}

/// The index of `own`'s research entry (the first one), if any.
pub open spec fn research_ix_spec(g: &Gen, own: u16) -> Option<int> {
    research_ix_in(g.mc2_castle_research@, own)
}

proof fn lemma_research_ix_at(r: Seq<(u16, [u8; 7], [u8; 7])>, own: u16, k: int)
    requires
        0 <= k < r.len(),
        r[k].0 == own,
        forall|q: int| 0 <= q < k ==> (#[trigger] r[q]).0 != own,
    ensures
        research_ix_in(r, own) == Some(k),
{
    reveal(research_ix_in);
    let w = choose|q: int| 0 <= q < r.len() && (#[trigger] r[q]).0 == own && forall|p: int| 0 <= p < q ==> (#[trigger] r[p]).0 != own;
    if w < k {
    } else if w > k {
    }
}

proof fn lemma_research_ix_none(r: Seq<(u16, [u8; 7], [u8; 7])>, own: u16)
    requires
        forall|q: int| 0 <= q < r.len() ==> (#[trigger] r[q]).0 != own,
    ensures
        research_ix_in(r, own) is None,
{
    reveal(research_ix_in);
}

proof fn lemma_research_ix_facts(r: Seq<(u16, [u8; 7], [u8; 7])>, own: u16)
    ensures
        research_ix_in(r, own) matches Some(k) ==> {
            &&& 0 <= k < r.len()
            &&& r[k].0 == own
            &&& forall|q: int| 0 <= q < k ==> (#[trigger] r[q]).0 != own
        },
        research_ix_in(r, own) is None ==> forall|q: int| 0 <= q < r.len() ==> (#[trigger] r[q]).0 != own,
{
    reveal(research_ix_in);
    if exists|k: int| 0 <= k < r.len() && (#[trigger] r[k]).0 == own {
        let k = choose|k: int| 0 <= k < r.len() && (#[trigger] r[k]).0 == own;
        lemma_first_match(r, own, k);
    }
}

proof fn lemma_first_match(r: Seq<(u16, [u8; 7], [u8; 7])>, own: u16, k: int)
    requires
        0 <= k < r.len(),
        r[k].0 == own,
    ensures
        exists|m: int| 0 <= m < r.len() && (#[trigger] r[m]).0 == own && forall|q: int| 0 <= q < m ==> (#[trigger] r[q]).0 != own,
    decreases k,
{
    if exists|q: int| 0 <= q < k && (#[trigger] r[q]).0 == own {
        let q = choose|q: int| 0 <= q < k && (#[trigger] r[q]).0 == own;
        lemma_first_match(r, own, q);
    } else {
        assert(forall|q: int| 0 <= q < k ==> (#[trigger] r[q]).0 != own);
    }
}

/// The researched part-type of `own`'s stage (0 when unstamped).
pub open spec fn part_type_spec(g: &Gen, own: u16, stage: u8) -> u8 {
    if !(1 <= stage <= 7) {
        0
    } else {
        match research_ix_spec(g, own) {
            Some(k) => g.mc2_castle_research[k].2[stage as int - 1],
            None => 0,
        }
    }
}

/// The researched HP factor of `own`'s stage (0 when unstamped).
pub open spec fn research_hp_spec(g: &Gen, own: u16, stage: u8) -> u8 {
    if !(1 <= stage <= 7) {
        0
    } else {
        match research_ix_spec(g, own) {
            Some(k) => g.mc2_castle_research[k].1[stage as int - 1],
            None => 0,
        }
    }
}

/// Is `j` an owned sphere the castle in slot `i` can swallow?
pub open spec fn absorbable(g: &Gen, i: int, j: int) -> bool {
    1 <= j < g.ent.len() && is_sphere_of(g.ent[j], g.ent[i].id24) && g.overlap_spec(i, j)
}

/// The first swallowable sphere by pool order.
#[verifier::opaque]
pub open spec fn first_absorbable(g: &Gen, i: int) -> Option<int> {
    if exists|j: int| absorbable(g, i, j) {
        Some(choose|j: int| absorbable(g, i, j) && forall|q: int| 1 <= q < j ==> !absorbable(g, i, q))
    } else {
        None
    }
}

/// Is record `e` a live stage piece of the castle in slot `i`?
pub open spec fn is_piece_of(e: Ent, i: int) -> bool {
    e.class64 == 10 && e.model65 == 79 && e.f146 as int == i && e.flags & F_REAPED == 0
}

/// The pool after castle `i`'s stage pieces are freed.
pub open spec fn free_stages_spec(s: Seq<Ent>, i: int) -> Seq<Ent> {
    let s1 = Seq::new(
        s.len(),
        |j: int|
            if j >= 1 && is_piece_of(s[j], i) {
                Ent { flags: s[j].flags | F_REAPED, ..s[j] }
            } else {
                s[j]
            },
    );
    s1.update(i, Ent { f52: 0, ..s1[i] })
}

/// The player slot (team) of an owner: the human is 0, a rival wizard
/// his slot, anyone else 0.
pub open spec fn team_spec(g: &Gen, own: u16) -> u8 {
    if own == PLAYER_TARGET {
        0
    } else if own != 0 && exists|k: int| 1 <= k < 8 && #[trigger] g.rival_ents[k] == own {
        (choose|k: int| 1 <= k < 8 && #[trigger] g.rival_ents[k] == own && forall|q: int| 1 <= q < k ==> #[trigger] g.rival_ents[q] != own) as u8
    } else {
        0
    }
}

/// A record with sprite row `idx` set and its extent quad derived.
pub open spec fn sprite_spec(g: &Gen, e: Ent, idx: u16) -> Ent {
    let (s6, r8) = ext_of(g, idx);
    Ent { type86: idx, frame88: 0, f78: r8 / 2, f80: s6 / 2, f82: s6 / 2, f84: r8 / 2, ..e }
}

/// A floor square root is within `l` exactly when the square is
/// below `(l + 1)²`.
proof fn lemma_isqrt_le(n: int, r: int, l: int)
    requires
        is_isqrt(n, r),
        l >= 0,
    ensures
        r <= l <==> n < (l + 1) * (l + 1),
{
    if r <= l {
        assert(r + 1 <= l + 1);
        assert((r + 1) * (r + 1) <= (l + 1) * (l + 1)) by (nonlinear_arith)
            requires
                0 <= r + 1 <= l + 1;
    } else {
        assert(l + 1 <= r);
        assert((l + 1) * (l + 1) <= r * r) by (nonlinear_arith)
            requires
                0 <= l + 1 <= r;
    }
}

/// The balloon's channel-0 intake over record `e` (before the flight)
/// whose life after the flight is `base` (its own, or full when a
/// sphere was swallowed), leaving `f`: with a live balloon and a hit,
/// life drops by the amount; a lethal hit remembers the source as
/// killer and keeps the letter, a survived one clears the channel's
/// source; the human's balloon raises the balloon latch (4). Without a
/// hit (or already dead) life and letters are as the flight left them.
pub open spec fn intake_rel(e: Ent, base: i32, f: Ent, alert0: u8, alert: u8) -> bool {
    let amt = e.mail[0].0;
    let src = e.mail[0].1;
    &&& (base == e.act_life || base == e.max_life as i32)
    &&& if base >= 0 && src != 0 {
        &&& f.act_life == base - amt as i32
        &&& alert == (if e.id24 == PLAYER_TARGET { 4u8 } else { alert0 })
        &&& f.act_life < 0 ==> f.f36 == src && f.mail == e.mail
        &&& f.act_life >= 0 ==> f.mail@ == e.mail@.update(0, (amt, 0u16))
    } else {
        &&& f.act_life == base
        &&& f.mail == e.mail
        &&& alert == alert0
    }
}

/// Is `e` a standing (3,3) balloon of `own`?
pub open spec fn live_balloon_of(e: Ent, own: u16) -> bool {
    e.class64 == 3 && e.model65 == 3 && e.id24 == own && e.flags & F_REAPED == 0
}

/// The (3,3) balloon the roster launches into slot `i` at (x, y, z)
/// for `own`: life 10000, speed 48, cargo cap 10000, hit channel 0
/// open, behavior row 9, team sprite 169 + art; the cave placement box
/// on caves.
pub open spec fn balloon_spec(g: &Gen, i: int, x: u16, y: u16, z: i16, own: u16) -> Ent {
    let b = Ent {
        class64: 3,
        model65: 3,
        tick70: 9,
        max_life: 10000,
        act_life: 10000,
        f126: 48,
        f136: 10000,
        f140: 0,
        f28: 1,
        row156: 9,
        id24: own,
        f144: own,
        x,
        y,
        z,
        ..fresh_ent(i)
    };
    let s = sprite_spec(g, b, (169 + color_art_spec(team_spec(g, own)) as int) as u16);
    if g.t.ceiling.len() > 0 {
        Ent { f80: 256, f82: 256, f84: 768, ..s }
    } else {
        s
    }
}

/// The piece lift above ground: 384 at stage ≤ 1, else 224.
pub open spec fn piece_lift(lvl: u8) -> int {
    if lvl <= 1 {
        384
    } else {
        224
    }
}

/// The (10,79) defender piece spawned into slot `i` at (x, y):
/// action 0x56, life 100000, stage tag `lvl`, part-type `part`, the
/// brain's fields zeroed, z = ground + lift, sprite 66.
pub open spec fn piece_spec(g: &Gen, i: int, x: u16, y: u16, own: u16, lvl: u8, part: u8) -> Ent {
    let b = Ent {
        class64: 10,
        model65: 79,
        tick70: 0x56,
        max_life: 100000,
        act_life: 100000,
        id24: own,
        f26: lvl as i16,
        f67: part,
        f71: 0,
        f68: 0,
        f44: 0,
        x,
        y,
        z: (g.ground_spec(x, y) + piece_lift(lvl)) as i16,
        ..fresh_ent(i)
    };
    sprite_spec(g, b, 66)
}


/// The slot the allocator hands out `q` pops from now.
pub open spec fn popped(free: Seq<usize>, q: int) -> usize {
    free[free.len() - 1 - q]
}

/// The stage the walk-down settles on: the highest stage ≤ `st` with
/// a researched part-type (0 when none).
pub open spec fn walk_stage(g: &Gen, own: u16, st: int) -> int
    decreases st,
{
    if st <= 0 {
        0
    } else if part_type_spec(g, own, st as u8) != 0 {
        st
    } else {
        walk_stage(g, own, st - 1)
    }
}

proof fn lemma_walk_stage(g: &Gen, own: u16, st: int)
    ensures
        0 <= walk_stage(g, own, st) <= (if st < 0 { 0 } else { st }),
        walk_stage(g, own, st) > 0 ==> part_type_spec(g, own, walk_stage(g, own, st) as u8) != 0,
    decreases st,
{
    if st > 0 {
        lemma_walk_stage(g, own, st - 1);
    }
}

/// The anchor tile of a record coordinate: (c + 128) >> 8.
pub open spec fn anchor(c: u16) -> u8 {
    (((c as int + 128) % 0x10000) / 256) as u8
}

/// Piece `q`'s map position for castle record `c` at stage `st` with
/// BUILD00 row `d`.
pub open spec fn piece_pos(c: Ent, st: u8, d: BuildDef, q: int) -> (u16, u16) {
    let tlx = w8(anchor(c.x) - d.w / 2);
    let tly = w8(anchor(c.y) - d.h / 2);
    let o = stage_parts_spec(st)[q];
    ((w8(tlx + o.0) as int * 256) as u16, (w8(tly + o.1) as int * 256) as u16)
}

/// The ejector's spill for castle record `c` with owner bank `bank`:
/// everything at level 0; otherwise store − capacity when bank + store
/// (saturating) exceeds capacity; else 0.
pub open spec fn spill_spec(c: Ent, bank: int) -> int {
    if c.f26 == 0 {
        c.f140 as int
    } else if clamp_spec(bank + c.f140, i32::MIN as int, i32::MAX as int) > c.f136 {
        c.f140 - c.f136
    } else {
        0
    }
}

/// The ejector's sphere count for spill `sp` with `room` free slots.
pub open spec fn eject_count(sp: int, room: int) -> int {
    let c = clamp_spec(sp / 1000, 1, 32);
    if c < room {
        c
    } else {
        room
    }
}

/// Is `e` an ejected sphere: a live (10,39) of `own` carrying
/// `share`, no destination, speed 16..=63?
pub open spec fn ejected_sphere(e: Ent, own: u16, share: i32) -> bool {
    &&& e.class64 == 10
    &&& e.model65 == 39
    &&& e.tick70 == 39
    &&& e.flags & F_REAPED == 0
    &&& e.f144 == own
    &&& e.f140 == share
    &&& e.dest_x == 0
    &&& e.dest_y == 0
    &&& 16 <= e.f126 < 64
}

/// Is `e` castle `i`'s live stage piece for `own` at stage `st` with
/// part-type `part`, standing at tile corner `pos`?
pub open spec fn is_stage_piece(e: Ent, i: int, own: u16, st: u8, part: u8, pos: (u16, u16)) -> bool {
    &&& e.class64 == 10
    &&& e.model65 == 79
    &&& e.tick70 == 0x56
    &&& e.flags & F_REAPED == 0
    &&& e.f146 as int == i
    &&& e.id24 == own
    &&& e.f26 == st as i16
    &&& e.f67 == part
    &&& e.f71 == 0
    &&& e.max_life == 100000
    &&& e.act_life == 100000
    &&& e.x == pos.0
    &&& e.y == pos.1
}

/// Is tile (gx, gy) closed to a castle's growth: built (angle bit 7),
/// or sealed (bit 3) on a cave level?
#[verifier::opaque]
pub open spec fn blocked_at(t: Planes, gx: u8, gy: u8) -> bool {
    let a = t.angle[tile_spec(gx, gy)];
    a & 0x80 != 0 || (t.ceiling.len() > 0 && a & 8 != 0)
}

/// Is tile (gx, gy) (coordinates wrap) closed to a castle's growth?
pub open spec fn blocked_spec(g: &Gen, gx: int, gy: int) -> bool {
    blocked_at(g.t, w8(gx), w8(gy))
}

/// The border walk of the space check, band by band: the top and
/// bottom bands are `my` rows of `2·ow` cells, the side slivers `my`
/// rows of `mx` cells at `oy + my`, the second of them starting its
/// first row at `ox + ow − mx`.
#[verifier::opaque]
pub open spec fn ring_clear(g: &Gen, ox: int, oy: int, ow: int, oh: int, mx: int, my: int) -> bool {
    &&& forall|row: int, col: int|
        0 <= row < my && 0 <= col < 2 * ow ==> !#[trigger] blocked_spec(g, ox + col, oy + row) && !blocked_spec(
            g,
            ox + col,
            oy + 2 * oh - my + row,
        )
    &&& forall|row: int, col: int|
        0 <= row < my && 0 <= col < mx ==> !#[trigger] blocked_spec(g, ox + col, oy + my + row) && !blocked_spec(
            g,
            (if row == 0 { ox + ow - mx } else { ox }) + col,
            oy + my + row,
        )
}

/// Does castle record `e` in slot `j` block castle `c` in slot `i`
/// whose next box has half-extents (hw, hh)?
pub open spec fn castle_blocks(e: Ent, j: int, c: Ent, i: int, hw: int, hh: int) -> bool {
    &&& j != i
    &&& e.class64 == 3
    &&& e.model65 == 2
    &&& e.act_life >= 0
    &&& e.flags & F_REAPED == 0
    &&& abs_diff(e.x, c.x) < e.f80 as int + hw
    &&& abs_diff(e.y, c.y) < e.f82 as int + hh
}

/// The space check's answer for castle `i`: room unless another live
/// castle overlaps the next-level box, or the border walk meets a
/// closed tile; always room when either level lacks a BUILD00 row.
pub open spec fn space_spec(g: &Gen, i: int) -> bool {
    let c = g.ent[i];
    let cur = clamp_spec(c.f26 as int, 0, 7);
    let nl = next_level(c.f26);
    if cur >= g.assets.build_tab.len() || nl >= g.assets.build_tab.len() {
        true
    } else {
        let dc = g.assets.build_tab[cur];
        let dn = g.assets.build_tab[nl];
        let hw = half_spec(dn.w) as int;
        let hh = half_spec(dn.h) as int;
        let iw = half_spec(dc.w) as int / 256;
        let ih = half_spec(dc.h) as int / 256;
        let ow = hw / 256;
        let oh = hh / 256;
        let ox = w8(anchor(c.x) - ow) as int;
        let oy = w8(anchor(c.y) - oh) as int;
        let mx = if ow > iw { ow - iw } else { 0 };
        let my = if oh > ih { oh - ih } else { 0 };
        &&& !(exists|j: int| 1 <= j < g.ent.len() && castle_blocks(#[trigger] g.ent[j], j, c, i, hw, hh))
        &&& ring_clear(g, ox, oy, ow, oh, mx, my)
    }
}

/// Is `e` a live (3,3) balloon of `own`?
pub open spec fn is_balloon_of(e: Ent, own: u16) -> bool {
    e.class64 == 3 && e.model65 == 3 && e.id24 == own && e.flags & F_REAPED == 0
}

/// Is `e` a live (3,3) balloon of `own` whose life has run out?
pub open spec fn dead_balloon(e: Ent, own: u16) -> bool {
    is_balloon_of(e, own) && e.act_life < 0
}

/// Is `e` reaped?
pub open spec fn is_reaped(e: Ent) -> bool {
    e.flags & F_REAPED != 0
}

/// Is `e` a sphere a balloon of `own` may fly for: a live owned
/// (10,39) not taken by a wizard (action 62) and not a temporary
/// (decaying) one?
pub open spec fn fetchable_sphere(e: Ent, own: u16) -> bool {
    &&& e.class64 == 10
    &&& e.model65 == 39
    &&& e.tick70 != 62
    &&& e.flags & F_REAPED == 0
    &&& e.flags & 0x2000 == 0
    &&& e.f144 == own
}

/// The guard cooldown after a roster pass that spawned no guard.
pub open spec fn cooled(f44: u16) -> u16 {
    if f44 > 0 {
        (f44 - 1) as u16
    } else {
        0
    }
}

pub proof fn lemma_or_reaped(f: u32)
    ensures
        (f | 0x400) & 0x400 != 0,
{
    assert((f | 0x400) & 0x400 != 0) by (bit_vector);
}

/// Everything outside the pool and the terrain planes' contents (and
/// the retile/paint queues and the dirty flag) is as in `a`.
pub open spec fn terrain_frame(a: &Gen, b: &Gen) -> bool {
    &&& b.free == a.free
    &&& b.sounds == a.sounds
    &&& b.assets == a.assets
    &&& b.t.tile_type == a.t.tile_type
    &&& b.t.height.len() == a.t.height.len()
    &&& b.t.angle.len() == a.t.angle.len()
    &&& b.t.ceiling.len() == a.t.ceiling.len()
    &&& b.mc2_castle_research == a.mc2_castle_research
    &&& b.mc2_cast_xp == a.mc2_cast_xp
    &&& b.rival_ents == a.rival_ents
    &&& b.mc2_life_scale == a.mc2_life_scale
    &&& b.castle_alert == a.castle_alert
    &&& b.balloon_alert == a.balloon_alert
    &&& b.mc2_spell_tokens == a.mc2_spell_tokens
    &&& b.mc2_rebound_precise == a.mc2_rebound_precise
}

/// The downgrade's capacity haircut: 10% of the capacity, in 64-bit
/// arithmetic under the overflow switch, else the 32-bit wrapping
/// product truncated by 100.
pub open spec fn cut_spec(patched: bool, cap: i32) -> int {
    if patched {
        tdiv(10 * cap as int, 100)
    } else {
        tdiv(vstd::wrapping::i32_specs::wrapping_mul(10, cap) as int, 100)
    }
}

/// The (10,42) build painter spawned into slot `p` for castle record
/// `c` in slot `castle`: action 44, BUILD00 row `row`, the settle
/// window flag (`repaint`), owner and parent back-link, placed at the
/// castle's build datum, extents from its row.
pub open spec fn painter_spec(g: &Gen, p: int, c: Ent, castle: int, row: u8, repaint: bool) -> Ent {
    let b = Ent {
        class64: 10,
        model65: 42,
        tick70: 0x2C,
        max_life: 0,
        f59: if repaint { 1u8 } else { 0u8 },
        f71: row,
        id24: c.id24,
        f40: castle as u16,
        x: c.x,
        y: c.y,
        z: c.site_z,
        ..fresh_ent(p)
    };
    if (row as int) < g.assets.build_tab.len() {
        extents_spec(b, g.assets.build_tab[row as int])
    } else {
        b
    }
}

/// Does every record carry a store in [0, 2^30) (so any two of them
/// add up inside 32 bits)?
pub open spec fn mana_bounded(s: Seq<Ent>) -> bool {
    forall|j: int| 0 <= j < s.len() ==> 0 <= #[trigger] s[j].f140 < 0x4000_0000
}

/// The painter's working frame for BUILD00 row `row`: the row's
/// footprint widened to the largest of rows 1..=`row`.
pub open spec fn frame_dims(tab: Seq<BuildDef>, row: int, r: int) -> (int, int)
    decreases r,
{
    if r < 1 {
        (tab[row].w as int, tab[row].h as int)
    } else {
        let (w, h) = frame_dims(tab, row, r - 1);
        if r < tab.len() {
            (if tab[r].w as int > w { tab[r].w as int } else { w }, if tab[r].h as int > h { tab[r].h as int } else { h })
        } else {
            (w, h)
        }
    }
}

proof fn lemma_frame_dims(tab: Seq<BuildDef>, row: int, r: int)
    requires
        0 <= row < tab.len(),
    ensures
        0 <= frame_dims(tab, row, r).0 <= 255,
        0 <= frame_dims(tab, row, r).1 <= 255,
        frame_dims(tab, row, r).0 >= tab[row].w,
        frame_dims(tab, row, r).1 >= tab[row].h,
        forall|q: int| 1 <= q <= r && q < tab.len() ==> frame_dims(tab, row, r).0 >= #[trigger] tab[q].w && frame_dims(tab, row, r).1 >= tab[q].h,
    decreases r,
{
    if r >= 1 {
        lemma_frame_dims(tab, row, r - 1);
    }
}

/// The cave seal at tile `t`: sealed (angle bit 3) exactly when the
/// ceiling does not clear the floor.
pub open spec fn sealed_right(g: &Gen, t: int) -> bool {
    (g.t.angle[t] & 8 != 0) == (g.t.ceiling[t] <= g.t.height[t])
}

/// Tile index of frame cell (dx, dy) from the corner (tlx, tly).
pub open spec fn frame_tile(tlx: u8, tly: u8, dx: int, dy: int) -> int {
    tile_spec(w8(tlx + dx), w8(tly + dy))
}

#[verifier::spinoff_prover]
#[verifier::rlimit(40)]
proof fn lemma_frame_tile_inj(tlx: u8, tly: u8, a: int, b: int, c: int, d: int)
    requires
        0 <= a < 256,
        0 <= b < 256,
        0 <= c < 256,
        0 <= d < 256,
        frame_tile(tlx, tly, a, b) == frame_tile(tlx, tly, c, d),
    ensures
        a == c && b == d,
{
    let x1 = w8(tlx + a);
    let y1 = w8(tly + b);
    let x2 = w8(tlx + c);
    let y2 = w8(tly + d);
    assert(y1 as int * 256 + x1 == y2 as int * 256 + x2);
    assert(x1 == x2 && y1 == y2);
}

/// |v| of a byte read as a signed byte.
pub open spec fn abs_i8(v: u8) -> int {
    if v >= 128 {
        256 - v as int
    } else {
        v as int
    }
}

/// The tile-ring distance of tile (ax, ay) from (tx, ty): the larger
/// of the two wrapped signed byte distances.
pub open spec fn ring_dist(tx: u8, ty: u8, ax: u8, ay: u8) -> int {
    let a = abs_i8(w8(ax - tx));
    let b = abs_i8(w8(ay - ty));
    if a > b {
        a
    } else {
        b
    }
}

/// The ring of record `e` from the piece record `p`.
pub open spec fn ring_of(p: Ent, e: Ent) -> int {
    ring_dist(anchor(p.x), anchor(p.y), anchor(e.x), anchor(e.y))
}

/// Is record `e` in slot `j` a hostile the piece in slot `i` (record
/// `p`) may shoot: live, not its owner's, a wizard/balloon-class
/// record (class 3 models 0, 1, 3) or any creature but model 22, in
/// rings 3..=12?
pub open spec fn piece_target(p: Ent, i: int, e: Ent, j: int) -> bool {
    &&& j != i
    &&& e.flags & F_REAPED == 0
    &&& e.id24 != p.id24
    &&& ((e.class64 == 3 && (e.model65 <= 1 || e.model65 == 3)) || (e.class64 == 5 && e.model65 != 22))
    &&& 3 <= ring_of(p, e) <= 12
}

/// Is the human at `player` a target of the piece record `p`?
pub open spec fn player_target(p: Ent, player: Option<(u16, u16, i16)>) -> bool {
    p.id24 != PLAYER_TARGET && player is Some && 3 <= ring_dist(
        anchor(p.x),
        anchor(p.y),
        anchor((player->0).0),
        anchor((player->0).1),
    ) <= 12
}

/// The human's ring from the piece record `p`.
pub open spec fn player_ring(p: Ent, player: Option<(u16, u16, i16)>) -> int {
    ring_dist(anchor(p.x), anchor(p.y), anchor((player->0).0), anchor((player->0).1))
}

/// The (spell, tier) a piece fire mode shoots.
pub open spec fn mode_shot(mode: u16) -> (int, int) {
    if mode == 0 {
        (0, 1)
    } else if mode == 1 {
        (7, 0)
    } else if mode == 2 {
        (7, 1)
    } else if mode == 3 {
        (0, 2)
    } else {
        (9, 0)
    }
}

/// The SPELLS tier a piece mode reads (all zero when the row is
/// absent).
pub open spec fn mode_sub(g: &Gen, mode: u16) -> SubSpell {
    let (sp, t) = mode_shot(mode);
    if sp < g.assets.spells.len() {
        g.assets.spells[sp].tiers[t]
    } else {
        SubSpell { mana_cost: 0, hint_text: 0, sub_spell: 0, word_0x18: 0, font_type: 0, max_mana_limit: 0, xpos1: 0, life: 0 }
    }
}

/// The absolute behavior row of the MC2 rows (row 0 of the column).
pub const ROW_BASE: usize = 59;

/// The shot relation of [`Gen::mc2_piece_fire`] from `a` to `b` for
/// piece `i` (see there).
pub open spec fn fire_rel(a: &Gen, b: &Gen, i: int, player: Option<(u16, u16, i16)>) -> bool {
    let e = a.ent[i as int];
    let f = b.ent[i as int];
    let tgt = e.f28;
    let gone = tgt == 0 || (tgt == PLAYER_TARGET && player is None) || (tgt != PLAYER_TARGET && tgt != 0 && (a.ent[tgt as int].act_life
        < 0 || a.ent[tgt as int].flags & F_REAPED != 0));
    let sub = mode_sub(a, e.f30);
    let arm = dispatch_arm_spec(mode_shot(e.f30).0 as usize, sub.life);
    &&& gone ==> b.ent@ =~= a.ent@.update(i as int, Ent { f28: 0, f71: 1, ..e })
    &&& gone ==> b.free == a.free && b.sounds == a.sounds
    &&& !gone ==> (f.f71 == 1 && f.f28 == 0) || (f.f71 == 8 && f.f28 == tgt)
    &&& !gone && a.free.len() > 0 && arm is Some && creator_spec((arm->0).0) is Some ==> {
        let q = a.free@.last() as int;
        let pr = b.ent[q];
        &&& b.free@ == a.free@.drop_last()
        &&& pr.class64 == 9
        &&& pr.model65 == (arm->0).0
        &&& pr.id24 == e.id24
        &&& pr.f146 == tgt
        &&& pr.f44 == clamp_spec(sub.sub_spell as int, 0, 0xFFFF) as u16
        &&& pr.f68 == ((arm->0).1).0
        &&& pr.f69 == ((arm->0).1).1
        &&& pr.f40 == 0
        &&& 384 <= pr.f126 <= 0x2000
        &&& f.f69 == w8(e.f69 - 1)
    }
}

/// The fire mode drawn from roll `r` for part-type `part`: 1% mode
/// 4, 5% the rare mode (3 for part 1, else 2), else the common one
/// (0 for part 1, else 1).
pub open spec fn fire_mode(r: u32, part: u8) -> u16 {
    let x = r % 100;
    if x == 0 {
        4
    } else if x <= 5 {
        if part == 1 { 3 } else { 2 }
    } else {
        if part != 1 { 1 } else { 0 }
    }
}

/// State 6's pick: `p` is `a` with piece `i`'s LCG drawn once, its
/// firing height latched, the fire mode and burst length set and
/// the state moved to 7.
pub open spec fn fire_pick(a: &Gen, p: &Gen, i: int) -> bool {
    let e = a.ent[i];
    let r = lcg_next(e.rand);
    let m = fire_mode(r, e.f67);
    &&& p.keeps_world(a)
    &&& p.free == a.free
    &&& p.sounds == a.sounds
    &&& p.ent@ =~= a.ent@.update(i, Ent { rand: r, site_z: e.z, f30: m, f69: if m <= 1 { 6 } else { 1 }, f71: 7, ..e })
}

/// The piece tail's step from `a` to `b`: only piece `i`'s position
/// and recoil step move.
pub open spec fn tail_rel(a: &Gen, b: &Gen, i: int) -> bool {
    &&& b.keeps_world(a)
    &&& b.free == a.free
    &&& b.sounds == a.sounds
    &&& b.ent@ =~= a.ent@.update(i, Ent { x: b.ent[i].x, y: b.ent[i].y, z: b.ent[i].z, f68: b.ent[i].f68, ..a.ent[i] })
}

/// The standing tick's relation (see [`Gen::mc2_castle_standing`])
/// from `a` to `b` for castle `i`.
pub open spec fn standing_rel(a: &Gen, b: &Gen, i: int, grabbed: bool) -> bool {
    let e = a.ent[i as int];
    let f = b.ent[i as int];
    &&& e.f50 == 1 && !grabbed ==> b.ent@ =~= a.ent@.update(i as int, Ent { tick70: 5, f59: 3, f50: 0, ..e })
    &&& e.f50 == 1 && grabbed ==> b.ent == a.ent
    &&& e.f50 > 1 ==> b.ent@ =~= a.ent@.update(
        i as int,
        Ent { f50: (e.f50 - 1) as u16, z: a.ground_spec(e.x, e.y) as i16, ..e },
    )
    &&& e.f50 == 0 && e.model65 != 3 ==> {
        let hit = e.mail[0].1 != 0;
        let lethal = e.act_life < 0 || (hit && e.act_life - (e.mail[0].0 as i32) < 0);
        let req = e.mail[5].1 == e.id24 && e.mail[5].1 != 0;
        &&& f.f144 == e.id24
        &&& lethal ==> f.tick70 == 6
        &&& !lethal && (e.flags & F_UPGRADE_ARMED != 0 || (req && e.f26 < 7)) ==> f.tick70 == 5 && f.f59 == 0
        &&& !lethal && e.flags & F_UPGRADE_ARMED == 0 && !(req && e.f26 < 7) ==> f.tick70 == e.tick70
    }
}

/// The build tick's relation (see [`Gen::mc2_castle_build`]) from `a`
/// to `b` for castle `i`.
pub open spec fn build_rel(a: &Gen, b: &Gen, i: int) -> bool {
    let e = a.ent[i as int];
    let f = b.ent[i as int];
    &&& e.f59 == 2 ==> b.ent@ =~= a.ent@.update(i as int, Ent { tick70: 4, f59: 0, ..e })
    &&& (e.f59 == 1 || e.f59 == 6) ==> b.ent@ =~= a.ent@.update(
        i as int,
        Ent { z: a.ground_spec(e.x, e.y) as i16, ..e },
    )
    &&& e.f59 == 3 && a.free.len() > 0 ==> f.f59 == 4
    &&& e.f59 == 0 && e.f26 != 0 && !space_spec(a, i as int) && e.model65 != 3 ==> f.f59 == 2 && f.flags
        & F_UPGRADE_ARMED == 0
    &&& e.f59 == 0 && (e.f26 == 0 || space_spec(a, i as int)) && a.free.len() > 0 ==> {
        &&& f.f26 == next_level(e.f26)
        &&& f.tick70 == 5
        &&& f.f59 == 4
    }
    &&& e.f59 > 6 ==> b.ent == a.ent
}

/// The dying castle's spill from `m` (the castle just before its
/// final ejection) to `b`: a castle at level 0 with a positive store
/// and a free slot sends the store out as `n` owner spheres of
/// ⌊store / n⌋ each and keeps only the remainder (less than `n`).
pub open spec fn spill_rel(m: &Gen, b: &Gen, i: int) -> bool {
    let c = m.ent[i];
    let st = c.f140 as int;
    let n = eject_count(st, m.free.len() as int);
    &&& b.ent[i].f26 == c.f26
    &&& c.f26 == 0 && st > 0 && m.free.len() > 0 ==> {
        &&& 1 <= n <= 32
        &&& b.ent[i].f140 == st - n * (st / n)
        &&& 0 <= b.ent[i].f140 < n
        &&& forall|q: int| 0 <= q < n ==> ejected_sphere(#[trigger] b.ent[popped(m.free@, q) as int], c.id24, (st / n) as i32)
    }
}

/// The destroy tick's relation (see [`Gen::mc2_castle_destroy`]) from
/// `a` to `b` for castle `i`.
pub open spec fn destroy_rel(a: &Gen, b: &Gen, i: int, patches: WorldPatches) -> bool {
    &&& a.free.len() == 0 ==> b.ent@ =~= a.ent@.update(i as int, Ent { tick70: 4, ..a.ent[i as int] })
    &&& a.free.len() > 0 && a.ent[i as int].model65 != 3 ==> {
        &&& b.ent[i as int].tick70 == 4
        &&& b.ent[i as int].f26 == (if a.ent[i as int].f26 > 0 {
            a.ent[i as int].f26 - 1
        } else {
            a.ent[i as int].f26 as int
        })
        &&& b.ent[i as int].f26 <= 0 ==> is_reaped(b.ent[i as int])
        &&& b.ent[i as int].f59 == 0
        &&& b.ent[i as int].f50 == 5
        &&& exists|m: Gen| {
            &&& #[trigger] spill_rel(&m, b, i)
            &&& m.ent[i].f140 <= a.ent[i].f140
            &&& a.ent[i].f26 > 0 ==> m.ent[i].f140 >= (if a.ent[i].f140 < a.ent[i].f136 - cut_spec(
                patches.mc2_downgrade_overflow,
                a.ent[i].f136,
            ) {
                a.ent[i].f140 as int
            } else {
                a.ent[i].f136 - cut_spec(patches.mc2_downgrade_overflow, a.ent[i].f136)
            })
        }
    }
    &&& b.assets == a.assets
}

/// The roster's frame from `o` to `g`: every record other than castle
/// `i` that was neither free (class 0) nor a class-3 record is kept.
pub open spec fn roster_frame(o: &Gen, g: &Gen, i: int) -> bool {
    forall|q: int|
        0 <= q < o.ent.len() && q != i && o.ent[q].class64 != 0 && o.ent[q].class64 != 3 ==> #[trigger] g.ent[q] == o.ent[q]
}

/// The owner bank as the chassis caps it.
pub open spec fn bank_capped(g: &Gen, own: u16) -> int {
    let b = bank_sum(g.ent@, own, g.ent.len() as int);
    if b > i32::MAX {
        i32::MAX as int
    } else {
        b
    }
}

/// The space check reads only castles, the BUILD00 table and the
/// planes: a change that keeps those gives the same answer.
proof fn lemma_space_kept(g0: &Gen, g1: &Gen, i: int)
    requires
        0 <= i < g0.ent.len(),
        g1.ent.len() == g0.ent.len(),
        g1.ent[i] == g0.ent[i],
        g1.assets == g0.assets,
        g1.t == g0.t,
        forall|j: int| 0 <= j < g0.ent.len() && g0.ent[j].class64 != 10 ==> #[trigger] g1.ent[j] == g0.ent[j],
        forall|j: int| 0 <= j < g0.ent.len() ==> (#[trigger] g1.ent[j]).class64 == g0.ent[j].class64,
    ensures
        space_spec(g1, i) == space_spec(g0, i),
{
    let c = g0.ent[i];
    let nl = next_level(c.f26);
    let cur = clamp_spec(c.f26 as int, 0, 7);
    if cur < g0.assets.build_tab.len() && nl < g0.assets.build_tab.len() {
        let dn = g0.assets.build_tab[nl];
        let dc = g0.assets.build_tab[cur];
        let hw = half_spec(dn.w) as int;
        let hh = half_spec(dn.h) as int;
        if exists|j: int| 1 <= j < g1.ent.len() && castle_blocks(#[trigger] g1.ent[j], j, c, i, hw, hh) {
            let w = choose|j: int| 1 <= j < g1.ent.len() && castle_blocks(#[trigger] g1.ent[j], j, c, i, hw, hh);
            assert(g1.ent[w] == g0.ent[w]);
            assert(castle_blocks(g0.ent[w], w, c, i, hw, hh));
        }
        if exists|j: int| 1 <= j < g0.ent.len() && castle_blocks(#[trigger] g0.ent[j], j, c, i, hw, hh) {
            let w = choose|j: int| 1 <= j < g0.ent.len() && castle_blocks(#[trigger] g0.ent[j], j, c, i, hw, hh);
            assert(g1.ent[w] == g0.ent[w]);
            assert(castle_blocks(g1.ent[w], w, c, i, hw, hh));
        }
        let ow = hw / 256;
        let oh = hh / 256;
        let iw = half_spec(dc.w) as int / 256;
        let ih = half_spec(dc.h) as int / 256;
        let mx = if ow > iw { ow - iw } else { 0 };
        let my = if oh > ih { oh - ih } else { 0 };
        let ox = w8(anchor(c.x) - ow) as int;
        let oy = w8(anchor(c.y) - oh) as int;
        assert forall|x: int, y: int|
            #![trigger blocked_spec(g1, x, y)]
            #![trigger blocked_spec(g0, x, y)]
            blocked_spec(g1, x, y) == blocked_spec(g0, x, y) by {}
        assert(ring_clear(g1, ox, oy, ow, oh, mx, my) == ring_clear(g0, ox, oy, ow, oh, mx, my)) by {
            reveal(ring_clear);
        }
    }
}

impl Gen {
    /// Write the BUILD00 row `row`'s half-extents into record `i`
    /// (no change when the row is absent).
    pub fn mc2_castle_extents_ent(&mut self, i: usize, row: u8)
        requires
            i < old(self).ent.len(),
        ensures
            final(self).ent@ == (if (row as int) < old(self).assets.build_tab.len() {
                old(self).ent@.update(
                    i as int,
                    extents_spec(old(self).ent[i as int], old(self).assets.build_tab[row as int]),
                )
            } else {
                old(self).ent@
            }),
            final(self).free == old(self).free,
            final(self).sounds == old(self).sounds,
            final(self).keeps_world(old(self)),
    {
        if (row as usize) >= self.assets.build_tab.len() {
            return;
        }
        let d = self.assets.build_tab[row as usize];
        self.ent[i].f80 = half_extent(d.w);
        self.ent[i].f82 = half_extent(d.h);
        self.ent[i].f84 = 0x4000;
    }

    /// The castle AABB for level `lvl` (see [`Self::mc2_castle_extents_ent`]).
    pub fn mc2_castle_extents(&mut self, i: usize, lvl: u8)
        requires
            i < old(self).ent.len(),
        ensures
            final(self).ent@ == (if (lvl as int) < old(self).assets.build_tab.len() {
                old(self).ent@.update(
                    i as int,
                    extents_spec(old(self).ent[i as int], old(self).assets.build_tab[lvl as int]),
                )
            } else {
                old(self).ent@
            }),
            final(self).free == old(self).free,
            final(self).sounds == old(self).sounds,
            final(self).keeps_world(old(self)),
    {
        self.mc2_castle_extents_ent(i, lvl);
    }

    /// The first player slot whose wizard is `own` (0 when none is).
    pub fn owner_slot(&self, own: u16) -> (k: usize)
        ensures
            k as int == owner_slot_spec(self, own),
            k < 8,
    {
        let mut k: usize = 0;
        while k < 8
            invariant
                k <= 8,
                forall|q: int| 0 <= q < k ==> !(self.rival_ents[q] != 0 && #[trigger] self.rival_ents[q] == own),
            decreases 8 - k,
        {
            if self.rival_ents[k] != 0 && self.rival_ents[k] == own {
                proof {
                    let w = choose|q: int|
                        0 <= q < 8 && self.rival_ents[q] != 0 && #[trigger] self.rival_ents[q] == own
                            && forall|p: int| 0 <= p < q ==> !(self.rival_ents[p] != 0 && #[trigger] self.rival_ents[p] == own);
                    assert(self.rival_ents[k as int] == own);
                    if w < k {
                    } else if w > k {
                        assert(!(self.rival_ents[k as int] != 0 && self.rival_ents[k as int] == own));
                    }
                }
                return k;
            }
            k = k + 1;
        }
        0
    }

    /// The HP/capacity ladder of castle `i` (see [`ladder_spec`]).
    pub fn mc2_castle_ladder(&mut self, i: usize)
        requires
            old(self).wf(),
            i < old(self).ent.len(),
        ensures
            final(self).wf(),
            final(self).ent@ == old(self).ent@.update(i as int, ladder_spec(old(self), old(self).ent[i as int])),
            final(self).free == old(self).free,
            final(self).sounds == old(self).sounds,
            final(self).keeps_world(old(self)),
    {
        let f26 = self.ent[i].f26;
        let lvl: usize = if f26 < 0 { 0 } else if f26 > 7 { 7 } else { f26 as usize };
        let slot = self.owner_slot(self.ent[i].id24);
        let factor = self.mc2_life_scale[slot] as i64;
        proof {
            assert(MC2_CASTLE_HP@ =~= seq![0u32, 20000, 40000, 40000, 60000, 60000, 80000, 80000]);
            assert(MC2_CASTLE_CAP@ =~= seq![5000i32, 8500, 18000, 38800, 78600, 158200, 317400, 300_000_000]);
        }
        let base = MC2_CASTLE_HP[lvl] as i64;
        assert(0 <= base * factor <= 80000 * 0x10000) by (nonlinear_arith)
            requires
                0 <= base <= 80000,
                0 <= factor <= 0x10000,
        ;
        let hp: i64 = base * factor / 256;
        if hp != 0 {
            let a = self.ent[i].act_life as i64;
            let debt: i64 = if a < 0 {
                if -a < hp / 2 { -a } else { hp / 2 }
            } else {
                0
            };
            self.ent[i].max_life = hp as u32;
            self.ent[i].act_life = (hp - debt) as i32;
        }
        self.ent[i].f136 = MC2_CASTLE_CAP[lvl];
    }

    #[verifier::spinoff_prover]
    #[verifier::rlimit(40)]
    /// The castle build datum at anchor tile (cx, cy): 32 × the
    /// perimeter-minimum ground over the BUILD00 row-1 footprint
    /// centred on the anchor.
    pub fn mc2_castle_site_z(&self, cx: u8, cy: u8) -> (z: i16)
        requires
            self.wf(),
            self.assets.build_tab.len() > 0,
        ensures
            ({
                let d = self.assets.build_tab[1int % (self.assets.build_tab.len() as int)];
                let tlx = w8(cx - d.w / 2);
                let tly = w8(cy - d.h / 2);
                &&& (d.w == 0 || d.h == 0) ==> z == 0
                &&& (d.w > 0 && d.h > 0) ==> {
                    &&& forall|dx: int, dy: int|
                        0 <= dx < d.w && 0 <= dy < d.h && Self::on_rim(dx, dy, d.w as int, d.h as int)
                            ==> z <= 32 * #[trigger] self.h_spec(w8(tlx + dx), w8(tly + dy))
                    &&& exists|dx: int, dy: int|
                        0 <= dx < d.w && 0 <= dy < d.h && Self::on_rim(dx, dy, d.w as int, d.h as int)
                            && z == 32 * #[trigger] self.h_spec(w8(tlx + dx), w8(tly + dy))
                }
            }),
    {
        let d = self.assets.build_tab[1 % self.assets.build_tab.len()];
        let tlx = ((cx as u32 + 256 - (d.w / 2) as u32) % 256) as u8;
        let tly = ((cy as u32 + 256 - (d.h / 2) as u32) % 256) as u8;
        let m = self.mc2_perimeter_min(tlx, tly, d.w as u16, d.h as u16);
        proof {
            assert(tlx == w8(cx - d.w / 2));
            assert(tly == w8(cy - d.h / 2));
            if d.w > 0 && d.h > 0 {
                let (wx, wy) = choose|dx: int, dy: int|
                    0 <= dx < d.w && 0 <= dy < d.h && Self::on_rim(dx, dy, d.w as int, d.h as int) && m
                        == #[trigger] self.h_spec(w8(tlx + dx), w8(tly + dy));
                assert(32 * m == 32 * self.h_spec(w8(tlx + wx), w8(tly + wy)));
            }
        }
        (32 * m) as i16
    }

    /// The level-up pre-clear: every live building whose box touches
    /// the castle's NEXT-level box (inclusive) dies and loses its
    /// degradation link (see [`preclear_spec`]); nothing happens when
    /// the next level has no BUILD00 row.
    pub fn mc2_castle_preclear(&mut self, i: usize)
        requires
            old(self).wf(),
            i < old(self).ent.len(),
        ensures
            final(self).wf(),
            final(self).free == old(self).free,
            final(self).sounds == old(self).sounds,
            final(self).keeps_world(old(self)),
            final(self).ent.len() == old(self).ent.len(),
            final(self).ent[0] == old(self).ent[0],
            final(self).ent[i as int] == old(self).ent[i as int],
            forall|j: int| 0 <= j < old(self).ent.len() && old(self).ent[j].class64 != 10 ==> #[trigger] final(self).ent[j] == old(self).ent[j],
            ({
                let nl = next_level(old(self).ent[i as int].f26);
                if nl < old(self).assets.build_tab.len() {
                    let d = old(self).assets.build_tab[nl];
                    forall|j: int|
                        1 <= j < old(self).ent.len() ==> #[trigger] final(self).ent[j] == preclear_spec(
                            old(self).ent[j],
                            j,
                            old(self).ent[i as int],
                            i as int,
                            half_spec(d.w) as int,
                            half_spec(d.h) as int,
                        )
                } else {
                    final(self).ent == old(self).ent
                }
            }),
    {
        let f26 = self.ent[i].f26 as i32;
        let next: usize = if f26 + 1 < 1 { 1 } else if f26 + 1 > 7 { 7 } else { (f26 + 1) as usize };
        if next >= self.assets.build_tab.len() {
            return;
        }
        let d = self.assets.build_tab[next];
        let hw = half_extent(d.w) as i32;
        let hh = half_extent(d.h) as i32;
        let c = self.ent[i];
        let n = self.ent.len();
        let mut j: usize = 1;
        while j < n
            invariant
                self.wf(),
                n == self.ent.len(),
                n == old(self).ent.len(),
                i < n,
                1 <= j <= n,
                c == old(self).ent[i as int],
                hw == half_spec(d.w),
                hh == half_spec(d.h),
                self.free == old(self).free,
                self.sounds == old(self).sounds,
                self.keeps_world(old(self)),
                self.ent[0] == old(self).ent[0],
                forall|q: int|
                    1 <= q < j ==> #[trigger] self.ent[q] == preclear_spec(
                        old(self).ent[q],
                        q,
                        c,
                        i as int,
                        hw as int,
                        hh as int,
                    ),
                forall|q: int| j <= q < n ==> #[trigger] self.ent[q] == old(self).ent[q],
            decreases n - j,
        {
            let e = self.ent[j];
            let dx = wdiff(e.x, c.x);
            let dy = wdiff(e.y, c.y);
            let adx = if dx < 0 { -dx } else { dx };
            let ady = if dy < 0 { -dy } else { dy };
            if j != i && e.class64 == 10 && e.model65 == 45 && e.flags & F_REAPED == 0 && adx
                <= e.f80 as i32 + hw && ady <= e.f82 as i32 + hh {
                self.ent[j].act_life = -1;
                self.ent[j].f46 = 0;
            }
            j = j + 1;
        }
    }

    /// The owner's possessed-building bank: the summed positive mana of
    /// the live buildings `own` holds, capped at `i32::MAX`.
    pub fn mc2_owner_bank(&self, own: u16) -> (b: i32)
        requires
            self.wf(),
        ensures
            b == (if bank_sum(self.ent@, own, self.ent.len() as int) > i32::MAX {
                i32::MAX as int
            } else {
                bank_sum(self.ent@, own, self.ent.len() as int)
            }),
            b >= 0,
    {
        let n = self.ent.len();
        let mut bank: i64 = 0;
        let mut j: usize = 1;
        assert(bank_sum(self.ent@, own, 1) == 0) by {
            assert(bank_sum(self.ent@, own, 0) == 0);
        }
        while j < n
            invariant
                self.wf(),
                n == self.ent.len(),
                1 <= j <= n,
                bank == bank_sum(self.ent@, own, j as int),
                0 <= bank <= j * 0x7FFF_FFFF,
            decreases n - j,
        {
            let e = self.ent[j];
            if e.class64 == 10 && e.model65 == 45 && e.flags & F_REAPED == 0 && e.f144 == own && e.f140 > 0 {
                bank = bank + e.f140 as i64;
            }
            j = j + 1;
        }
        if bank > 0x7FFF_FFFF { 0x7FFF_FFFF } else { bank as i32 }
    }

    /// The index of `own`'s research entry, if any.
    pub fn research_ix(&self, own: u16) -> (r: Option<usize>)
        ensures
            match r {
                Some(k) => {
                    &&& research_ix_spec(self, own) == Some(k as int)
                    &&& k < self.mc2_castle_research.len()
                    &&& self.mc2_castle_research[k as int].0 == own
                },
                None => research_ix_spec(self, own) is None,
            },
    {
        let n = self.mc2_castle_research.len();
        let mut k: usize = 0;
        while k < n
            invariant
                n == self.mc2_castle_research.len(),
                k <= n,
                forall|q: int| 0 <= q < k ==> (#[trigger] self.mc2_castle_research[q]).0 != own,
            decreases n - k,
        {
            if self.mc2_castle_research[k].0 == own {
                proof {
                    lemma_research_ix_at(self.mc2_castle_research@, own, k as int);
                }
                return Some(k);
            }
            k = k + 1;
        }
        proof {
            lemma_research_ix_none(self.mc2_castle_research@, own);
        }
        None
    }

    /// The researched part-type of `own`'s stage (0 when unstamped).
    pub fn mc2_castle_part_type(&self, own: u16, stage: u8) -> (p: u8)
        ensures
            p == part_type_spec(self, own, stage),
    {
        if stage < 1 || stage > 7 {
            return 0;
        }
        match self.research_ix(own) {
            Some(k) => self.mc2_castle_research[k].2[(stage - 1) as usize],
            None => 0,
        }
    }

    /// The first swallowable sphere's slot (0 when none).
    pub fn first_absorbable_ix(&self, i: usize) -> (r: usize)
        requires
            i < self.ent.len(),
        ensures
            r == 0 ==> first_absorbable(self, i as int) is None,
            r != 0 ==> first_absorbable(self, i as int) == Some(r as int) && absorbable(self, i as int, r as int),
    {
        let own = self.ent[i].id24;
        let n = self.ent.len();
        let mut j: usize = 1;
        while j < n
            invariant
                n == self.ent.len(),
                i < n,
                1 <= j <= n,
                own == self.ent[i as int].id24,
                forall|q: int| 1 <= q < j ==> !absorbable(self, i as int, q),
            decreases n - j,
        {
            let e = self.ent[j];
            if e.class64 == 10 && e.model65 == 39 && e.flags & F_REAPED == 0 && e.f144 == own
                && self.ent_overlap(i, j) {
                proof {
                    reveal(first_absorbable);
                    assert(absorbable(self, i as int, j as int));
                    let w = choose|q: int| absorbable(self, i as int, q) && forall|p: int| 1 <= p < q ==> !absorbable(self, i as int, p);
                    if w < j {
                    } else if w > j {
                    }
                }
                return j;
            }
            j = j + 1;
        }
        proof {
            reveal(first_absorbable);
            if exists|q: int| absorbable(self, i as int, q) {
                let q = choose|q: int| absorbable(self, i as int, q);
                assert(1 <= q < n);
            }
        }
        0
    }

    #[verifier::spinoff_prover]
    #[verifier::rlimit(40)]
    /// The standing castle's sphere intake: below capacity, the first
    /// owned sphere (pool order) overlapping the castle lands whole
    /// and is reaped; one per call.
    pub fn mc2_castle_absorb(&mut self, i: usize)
        requires
            old(self).wf(),
            i < old(self).ent.len(),
            forall|j: int|
                #[trigger] absorbable(old(self), i as int, j) ==> i32::MIN <= old(self).ent[i as int].f140
                    + old(self).ent[j].f140 <= i32::MAX,
        ensures
            final(self).wf(),
            final(self).ent.len() == old(self).ent.len(),
            final(self).ent[i as int] == (Ent {
                f140: final(self).ent[i as int].f140,
                flags: final(self).ent[i as int].flags,
                ..old(self).ent[i as int]
            }),
            final(self).free == old(self).free,
            final(self).sounds == old(self).sounds,
            final(self).keeps_world(old(self)),
            ({
                let o = old(self);
                let c = o.ent[i as int];
                if c.f140 >= c.f136 || first_absorbable(o, i as int).is_none() {
                    final(self).ent == o.ent
                } else {
                    let j = first_absorbable(o, i as int)->0;
                    let s1 = o.ent@.update(i as int, Ent { f140: (c.f140 + o.ent[j].f140) as i32, ..c });
                    final(self).ent@ == s1.update(j, Ent { flags: s1[j].flags | F_REAPED, ..s1[j] })
                }
            }),
    {
        if self.ent[i].f140 >= self.ent[i].f136 {
            return;
        }
        let found = self.first_absorbable_ix(i);
        if found == 0 {
            return;
        }
        assert(first_absorbable(old(self), i as int) == Some(found as int));
        assert(absorbable(old(self), i as int, found as int));
        assert(i32::MIN <= old(self).ent[i as int].f140 + old(self).ent[found as int].f140 <= i32::MAX);
        let add = self.ent[found].f140;
        let mut ci = self.ent[i];
        ci.f140 = ci.f140 + add;
        self.ent.set(i, ci);
        let mut cj = self.ent[found];
        cj.flags = cj.flags | F_REAPED;
        self.ent.set(found, cj);
        proof {
            lemma_wf_same_classes(old(self), self);
            let o = old(self);
            let c = o.ent[i as int];
            let s1 = o.ent@.update(i as int, Ent { f140: (c.f140 + o.ent[found as int].f140) as i32, ..c });
            assert(self.ent@ =~= s1.update(found as int, Ent { flags: s1[found as int].flags | F_REAPED, ..s1[found as int] }));
        }
    }

    /// Free castle `i`'s stage pieces (the live (10,79) records
    /// back-linked to it) and clear its chain root.
    pub fn mc2_castle_free_stages(&mut self, i: usize)
        requires
            old(self).wf(),
            i < old(self).ent.len(),
        ensures
            final(self).wf(),
            final(self).free == old(self).free,
            final(self).sounds == old(self).sounds,
            final(self).keeps_world(old(self)),
            final(self).ent@ == free_stages_spec(old(self).ent@, i as int),
    {
        let n = self.ent.len();
        let mut j: usize = 1;
        while j < n
            invariant
                self.wf(),
                n == self.ent.len(),
                n == old(self).ent.len(),
                i < n,
                1 <= j <= n,
                self.free == old(self).free,
                self.sounds == old(self).sounds,
                self.keeps_world(old(self)),
                self.ent[0] == old(self).ent[0],
                forall|q: int|
                    1 <= q < j ==> #[trigger] self.ent[q] == (if is_piece_of(old(self).ent[q], i as int) {
                        Ent { flags: old(self).ent[q].flags | F_REAPED, ..old(self).ent[q] }
                    } else {
                        old(self).ent[q]
                    }),
                forall|q: int| j <= q < n ==> #[trigger] self.ent[q] == old(self).ent[q],
            decreases n - j,
        {
            let e = self.ent[j];
            if e.class64 == 10 && e.model65 == 79 && e.f146 as usize == i && e.flags & F_REAPED == 0 {
                self.ent[j].flags = e.flags | F_REAPED;
            }
            j = j + 1;
        }
        self.ent[i].f52 = 0;
        assert(self.ent@ =~= free_stages_spec(old(self).ent@, i as int));
    }

    #[verifier::spinoff_prover]
    #[verifier::rlimit(40)]
    /// Stamp `own`'s research for `stage` from the castle spell's tier
    /// `tier` (capped at 2): the HP factor (the tier's sub-spell
    /// clamped to a byte) and the part-type (its life, floored at 0)
    /// go into `own`'s entry, which is created (zeroed) when absent.
    /// No-op for no owner, a stage outside 1..=7 or no castle-spell
    /// row.
    pub fn mc2_research_stamp(&mut self, own: u16, stage: u8, tier: u8)
        ensures
            final(self).ent == old(self).ent,
            final(self).free == old(self).free,
            final(self).sounds == old(self).sounds,
            final(self).t == old(self).t,
            final(self).assets == old(self).assets,
            final(self).rival_ents == old(self).rival_ents,
            final(self).mc2_life_scale == old(self).mc2_life_scale,
            final(self).mc2_cast_xp == old(self).mc2_cast_xp,
            (own == 0 || !(1 <= stage <= 7) || old(self).assets.spells.len() <= 2)
                ==> final(self).mc2_castle_research == old(self).mc2_castle_research,
            !(own == 0 || !(1 <= stage <= 7) || old(self).assets.spells.len() <= 2) ==> ({
                let sub = old(self).assets.spells[2].tiers[if tier > 2 { 2int } else { tier as int }];
                let hp = clamp_spec(sub.sub_spell as int, 0, 255) as u8;
                let part = (if sub.life < 0 { 0 } else { sub.life as int }) as u8;
                let r0 = old(self).mc2_castle_research@;
                let r1 = final(self).mc2_castle_research@;
                let found = research_ix_spec(old(self), own);
                let k = match found {
                    Some(k) => k,
                    None => r0.len() as int,
                };
                let base1 = if found is Some { r0[k].1@ } else { seq![0u8, 0, 0, 0, 0, 0, 0] };
                let base2 = if found is Some { r0[k].2@ } else { seq![0u8, 0, 0, 0, 0, 0, 0] };
                &&& research_ix_spec(final(self), own) == Some(k)
                &&& r1.len() == (if found is Some { r0.len() as int } else { r0.len() as int + 1 })
                &&& forall|q: int| 0 <= q < r0.len() && q != k ==> #[trigger] r1[q] == r0[q]
                &&& r1[k].0 == own
                &&& r1[k].1@ == base1.update(stage as int - 1, hp)
                &&& r1[k].2@ == base2.update(stage as int - 1, part)
                &&& part_type_spec(final(self), own, stage) == part
                &&& research_hp_spec(final(self), own, stage) == hp
            }),
    {
        if own == 0 || stage < 1 || stage > 7 || self.assets.spells.len() <= 2 {
            return;
        }
        let ti: usize = if tier > 2 { 2 } else { tier as usize };
        let sub = self.assets.spells[2].tiers[ti];
        let hp: u8 = if sub.sub_spell < 0 { 0 } else if sub.sub_spell > 255 { 255 } else { sub.sub_spell as u8 };
        let part: u8 = if sub.life < 0 { 0 } else { sub.life as u8 };
        let s = (stage - 1) as usize;
        let ghost r0 = old(self).mc2_castle_research@;
        match self.research_ix(own) {
            Some(k) => {
                let mut e = self.mc2_castle_research[k];
                e.1[s] = hp;
                e.2[s] = part;
                self.mc2_castle_research.set(k, e);
                proof {
                    lemma_research_ix_facts(r0, own);
                    let r1 = self.mc2_castle_research@;
                    assert forall|q: int| 0 <= q < k implies (#[trigger] r1[q]).0 != own by {
                        assert(r1[q] == r0[q]);
                    }
                    lemma_research_ix_at(r1, own, k as int);
                }
            },
            None => {
                let mut e: (u16, [u8; 7], [u8; 7]) = (own, [0; 7], [0; 7]);
                e.1[s] = hp;
                e.2[s] = part;
                let n = self.mc2_castle_research.len();
                self.mc2_castle_research.push(e);
                proof {
                    lemma_research_ix_facts(r0, own);
                    let r1 = self.mc2_castle_research@;
                    assert forall|q: int| 0 <= q < n implies (#[trigger] r1[q]).0 != own by {
                        assert(r1[q] == r0[q]);
                    }
                    lemma_research_ix_at(r1, own, n as int);
                    assert(e.1@ =~= seq![0u8, 0, 0, 0, 0, 0, 0].update(stage as int - 1, hp));
                    assert(e.2@ =~= seq![0u8, 0, 0, 0, 0, 0, 0].update(stage as int - 1, part));
                }
            },
        }
    }

    /// A balloon dissolves: its cargo (when positive) drops as one
    /// owned sphere at the balloon; the balloon is reaped.
    pub fn mc2_balloon_to_sphere(&mut self, b: usize)
        requires
            old(self).wf(),
            old(self).slot_ok(b as int),
            old(self).ent[b as int].class64 != 0,
        ensures
            final(self).wf(),
            final(self).sounds == old(self).sounds,
            final(self).keeps_world(old(self)),
            ({
                let o = old(self);
                let e = o.ent[b as int];
                let reaped = Ent { flags: e.flags | F_REAPED, ..e };
                if e.f140 > 0 && o.free.len() > 0 {
                    let s = o.free@.last();
                    &&& final(self).free@ == o.free@.drop_last()
                    &&& final(self).ent@ == o.ent@.update(
                        s as int,
                        Ent { class64: 10, model65: 39, tick70: 39, x: e.x, y: e.y, z: e.z, f140: e.f140, f144: e.id24, ..fresh_ent(s as int) },
                    ).update(b as int, reaped)
                } else {
                    &&& final(self).free@ == o.free@
                    &&& final(self).ent@ == o.ent@.update(b as int, reaped)
                }
            }),
    {
        let cargo = self.ent[b].f140;
        let (x, y, z, own) = (self.ent[b].x, self.ent[b].y, self.ent[b].z, self.ent[b].id24);
        proof {
            if old(self).free@.contains(b) {
                let k = choose|k: int| 0 <= k < old(self).free.len() && old(self).free@[k] == b;
                assert(old(self).ent[old(self).free[k] as int].class64 == 0);
            }
        }
        let ghost mut mid = *old(self);
        if cargo > 0 {
            match self.spawn_mana_ball(x, y, z) {
                Some(s) => {
                    proof { mid = *self; }
                    let mut e = self.ent[s];
                    e.f140 = cargo;
                    e.f144 = own;
                    self.ent.set(s, e);
                },
                None => {},
            }
        }
        let mut eb = self.ent[b];
        eb.flags = eb.flags | F_REAPED;
        self.ent.set(b, eb);
        proof {
            lemma_wf_same_classes(&mid, self);
            let o = old(self);
            let e = o.ent[b as int];
            let reaped = Ent { flags: e.flags | F_REAPED, ..e };
            if e.f140 > 0 && o.free.len() > 0 {
                let sl = o.free@.last();
                assert(self.ent@ =~= o.ent@.update(
                    sl as int,
                    Ent { class64: 10, model65: 39, tick70: 39, x: e.x, y: e.y, z: e.z, f140: e.f140, f144: e.id24, ..fresh_ent(sl as int) },
                ).update(b as int, reaped));
            } else {
                assert(self.ent@ =~= o.ent@.update(b as int, reaped));
            }
        }
    }

    /// The player slot (team) of an owner (see [`team_spec`]).
    pub fn owner_team_slot(&self, own: u16) -> (t: u8)
        ensures
            t == team_spec(self, own),
    {
        match self.owner_team(own) {
            Some(t) => {
                proof {
                    if own != PLAYER_TARGET {
                        let w = choose|k: int| 1 <= k < 8 && #[trigger] self.rival_ents[k] == own && forall|q: int| 1 <= q < k ==> #[trigger] self.rival_ents[q] != own;
                        assert(self.rival_ents[t as int] == own);
                        if w < t {
                        } else if w > t {
                        }
                    }
                }
                t
            },
            None => 0,
        }
    }

    /// The (3,3) balloon constructor (see [`balloon_spec`]).
    pub fn mc2_spawn_balloon(&mut self, x: u16, y: u16, z: i16, own: u16) -> (r: Option<usize>)
        requires
            old(self).wf(),
        ensures
            final(self).wf(),
            final(self).keeps_world(old(self)),
            final(self).sounds == old(self).sounds,
            match r {
                Some(i) => {
                    &&& old(self).free.len() > 0
                    &&& i == old(self).free@.last()
                    &&& final(self).free@ == old(self).free@.drop_last()
                    &&& final(self).ent@ == old(self).ent@.update(i as int, balloon_spec(old(self), i as int, x, y, z, own))
                },
                None => {
                    &&& old(self).free.len() == 0
                    &&& final(self).free@ == old(self).free@
                    &&& final(self).ent == old(self).ent
                },
            },
    {
        let i = match self.new_event() {
            Some(i) => i,
            None => return None,
        };
        self.ent[i].class64 = 3;
        self.ent[i].model65 = 3;
        self.ent[i].tick70 = 9;
        self.ent[i].max_life = 10000;
        self.ent[i].act_life = 10000;
        self.ent[i].f126 = 48;
        self.ent[i].f136 = 10000;
        self.ent[i].f140 = 0;
        self.ent[i].f28 = 1;
        self.ent[i].row156 = 9;
        self.ent[i].id24 = own;
        self.ent[i].f144 = own;
        self.link(i, x, y, z);
        self.refill_life(i);
        let team = self.owner_team_slot(own);
        let art = color_art(team);
        self.mc2_set_sprite(i, 169 + art as u16);
        if self.is_cave() {
            self.mc2_shift_rot(i, 256, 768);
        }
        assert(self.ent@ =~= old(self).ent@.update(i as int, balloon_spec(old(self), i as int, x, y, z, own)));
        Some(i)
    }

    /// The (10,79) defender piece constructor (see [`piece_spec`]).
    pub fn mc2_spawn_castle_piece(&mut self, x: u16, y: u16, own: u16, lvl: u8, part: u8) -> (r: Option<usize>)
        requires
            old(self).wf(),
        ensures
            final(self).wf(),
            final(self).keeps_world(old(self)),
            final(self).sounds == old(self).sounds,
            match r {
                Some(i) => {
                    &&& old(self).free.len() > 0
                    &&& i == old(self).free@.last()
                    &&& final(self).free@ == old(self).free@.drop_last()
                    &&& final(self).ent@ == old(self).ent@.update(i as int, piece_spec(old(self), i as int, x, y, own, lvl, part))
                },
                None => {
                    &&& old(self).free.len() == 0
                    &&& final(self).free@ == old(self).free@
                    &&& final(self).ent == old(self).ent
                },
            },
    {
        let i = match self.new_event() {
            Some(i) => i,
            None => return None,
        };
        self.ent[i].class64 = 10;
        self.ent[i].model65 = 79;
        self.ent[i].tick70 = 0x56;
        self.ent[i].max_life = 100_000;
        self.ent[i].id24 = own;
        self.ent[i].f26 = lvl as i16;
        self.ent[i].f67 = part;
        self.ent[i].f71 = 0;
        self.ent[i].f68 = 0;
        self.ent[i].f44 = 0;
        let lift: i32 = if lvl <= 1 { 384 } else { 224 };
        let z = (self.ground_z(x, y) + lift) as i16;
        self.link(i, x, y, z);
        self.refill_life(i);
        self.mc2_set_sprite(i, 66);
        assert(self.ent@ =~= old(self).ent@.update(i as int, piece_spec(old(self), i as int, x, y, own, lvl, part)));
        Some(i)
    }

    /// One ejected sphere: pop a (10,39) at the castle, load it with
    /// `share` for `own`, give it its speed and lift, throw it to a
    /// random yaw and distance, and take `share` off the castle.
    #[verifier::spinoff_prover]
    #[verifier::rlimit(60)]
    fn eject_one(&mut self, i: usize, share: i32, own: u16, cx: u16, cy: u16, cz: i16, ground: i16) -> (b: usize)
        requires
            old(self).wf(),
            old(self).free.len() > 0,
            old(self).slot_ok(i as int),
            !old(self).free@.contains(i),
            old(self).ent[i as int].f140 - share >= i32::MIN,
            share >= 1,
        ensures
            final(self).wf(),
            b == old(self).free@.last(),
            final(self).free@ == old(self).free@.drop_last(),
            final(self).sounds == old(self).sounds,
            final(self).keeps_world(old(self)),
            final(self).ent.len() == old(self).ent.len(),
            ejected_sphere(final(self).ent[b as int], own, share),
            final(self).ent[i as int] == (Ent {
                f140: (old(self).ent[i as int].f140 - share) as i32,
                rand: final(self).ent[i as int].rand,
                ..old(self).ent[i as int]
            }),
            forall|j: int| 0 <= j < old(self).ent.len() && j != i && j != b ==> #[trigger] final(self).ent[j] == old(self).ent[j],
    {
        let b = match self.spawn_mana_ball(cx, cy, cz) {
            Some(b) => b,
            None => {
                assert(false);
                0
            },
        };
        let ghost after = *self;
        assert(8u32 & 0x400u32 == 0) by (bit_vector);
        let d = self.ent_rand(b);
        let r1 = self.ent_rand(i);
        let r2 = self.ent_rand(i);
        let dist = (r1 % 0x1400 + 3840) as i16;
        let yaw = (r2 & 0x7FF) as u16;
        let mut pos = (cx, cy, cz);
        Self::polar_step(&mut pos, yaw, 0, dist);
        let lift: i32 = 1024 - ((cz as i32 - ground as i32 + 0x8000 + 0x10000) % 0x10000 - 0x8000);
        let mut e = self.ent[b];
        e.f140 = share;
        e.f144 = own;
        e.f126 = (d % 0x30 + 16) as i16;
        e.dest_x = 0;
        e.dest_y = 0;
        e.f46 = (lift / 8) as i16;
        e.x = pos.0;
        e.y = pos.1;
        e.z = pos.2;
        self.ent.set(b, e);
        let mut ci = self.ent[i];
        ci.f140 = ci.f140 - share;
        self.ent.set(i, ci);
        proof {
            lemma_wf_same_classes(&after, self);
        }
        b
    }

    /// The overflow ejector: the spill (see [`spill_spec`]) leaves as
    /// `count` owner-tagged (10,39) spheres of `spill / count` each
    /// (`count` = spill/1000 clamped to 1..=32, at most the free
    /// slots), each popped to a random yaw 3840..=8959 out with a
    /// random speed 16..=63; the castle's store drops by exactly what
    /// the spheres carry. Nothing happens on a non-positive spill or a
    /// full pool.
    pub fn mc2_castle_eject(&mut self, i: usize)
        requires
            old(self).wf(),
            old(self).slot_ok(i as int),
            old(self).ent[i as int].class64 != 0,
            i32::MIN <= old(self).ent[i as int].f140 - old(self).ent[i as int].f136 <= i32::MAX,
        ensures
            final(self).wf(),
            final(self).sounds == old(self).sounds,
            final(self).keeps_world(old(self)),
            final(self).ent.len() == old(self).ent.len(),
            ({
                let o = old(self);
                let c = o.ent[i as int];
                let sp = spill_spec(c, bank_capped(o, c.id24));
                let l = o.free.len() as int;
                if sp <= 0 || l == 0 {
                    &&& final(self).ent == o.ent
                    &&& final(self).free == o.free
                } else {
                    let n = eject_count(sp, l);
                    let share = sp / n;
                    &&& 1 <= n <= 32
                    &&& 1 <= share
                    &&& n * share <= sp
                    &&& final(self).free@ == o.free@.subrange(0, l - n)
                    &&& forall|q: int| 0 <= q < n ==> ejected_sphere(#[trigger] final(self).ent[popped(o.free@, q) as int], c.id24, share as i32)
                    &&& final(self).ent[i as int] == (Ent { f140: (c.f140 - n * share) as i32, rand: final(self).ent[i as int].rand, ..c })
                    &&& forall|j: int| 0 <= j < o.ent.len() && j != i && !(exists|q: int| 0 <= q < n && popped(o.free@, q) == j)
                        ==> #[trigger] final(self).ent[j] == o.ent[j]
                }
            }),
            mana_bounded(old(self).ent@) && old(self).ent[i as int].f136 >= 0 ==> mana_bounded(final(self).ent@),
    {
        let c = self.ent[i];
        let own = c.id24;
        let stored = c.f140;
        let cap = c.f136;
        let bank = self.mc2_owner_bank(own);
        let sum: i64 = bank as i64 + stored as i64;
        let sat: i64 = if sum > 0x7FFF_FFFF { 0x7FFF_FFFF } else if sum < -0x8000_0000 { -0x8000_0000 } else { sum };
        let mut spill: i32 = if sat > cap as i64 { stored - cap } else { 0 };
        if c.f26 == 0 {
            spill = stored;
        }
        if spill <= 0 {
            return;
        }
        let room = self.free.len();
        if room == 0 {
            return;
        }
        let c0: i32 = spill / 1000;
        let c1: i32 = if c0 < 1 { 1 } else if c0 > 32 { 32 } else { c0 };
        let count: usize = if (c1 as usize) < room { c1 as usize } else { room };
        let share: i32 = spill / count as i32;
        assert(share >= 1) by (nonlinear_arith)
            requires
                spill >= 1,
                1 <= count <= 32,
                count <= c1,
                c1 == (if c0 < 1 { 1 } else if c0 > 32 { 32 } else { c0 }),
                c0 == spill / 1000,
                share == spill / (count as i32),
        ;
        proof {
            vstd::arithmetic::div_mod::lemma_fundamental_div_mod(spill as int, count as int);
        }
        let cx = c.x;
        let cy = c.y;
        let cz = c.z;
        let ground = self.ground_z(cx, cy) as i16;
        let ghost o = *old(self);
        let ghost l = o.free.len() as int;
        let mut k: usize = 0;
        while k < count
            invariant
                self.wf(),
                o == *old(self),
                o.wf(),
                l == o.free.len(),
                1 <= count <= 32,
                count <= l,
                1 <= share,
                count * share <= spill,
                k <= count,
                1 <= i < self.ent.len(),
                self.ent.len() == o.ent.len(),
                !o.free@.contains(i),
                o.free@.no_duplicates(),
                c == o.ent[i as int],
                own == c.id24,
                self.free@ == o.free@.subrange(0, l - k),
                self.sounds == o.sounds,
                self.keeps_world(&o),
                self.ent[i as int] == (Ent { f140: (c.f140 - k * share) as i32, rand: self.ent[i as int].rand, ..c }),
                forall|q: int| 0 <= q < k ==> ejected_sphere(#[trigger] self.ent[popped(o.free@, q) as int], own, share),
                forall|j: int| 0 <= j < o.ent.len() && j != i && !(exists|q: int| 0 <= q < k && popped(o.free@, q) == j)
                    ==> #[trigger] self.ent[j] == o.ent[j],
                (spill as int) <= (if c.f26 == 0 { c.f140 as int } else { c.f140 - c.f136 }),
                spill >= 1,
            decreases count - k,
        {
            let ghost before = *self;
            assert(c.f140 - k * share - share >= i32::MIN && c.f140 - k * share <= c.f140) by (nonlinear_arith)
                requires
                    k < count,
                    count * share <= spill,
                    spill <= c.f140 || spill <= c.f140 - c.f136,
                    c.f136 >= i32::MIN,
                    c.f140 >= i32::MIN,
                    share >= 1,
            ;
            assert(self.ent[i as int].f140 == c.f140 - k * share);
            let b = self.eject_one(i, share, own, cx, cy, cz, ground);
            proof {
                assert(before.free@.len() == l - k);
                assert(before.free@[l - k - 1] == o.free@[l - k - 1]);
                assert(before.free@.last() == o.free@[l - k - 1]);
                assert(b == popped(o.free@, k as int));
                assert forall|q: int| 0 <= q < k + 1 implies ejected_sphere(#[trigger] self.ent[popped(o.free@, q) as int], own, share) by {
                    if q < k {
                        assert(1 <= o.free[l - 1 - q] < o.ent.len());
                        assert(ejected_sphere(before.ent[popped(o.free@, q) as int], own, share));
                        assert(o.free@[l - 1 - q] != o.free@[l - 1 - k]);
                        assert(popped(o.free@, q) != b);
                        assert(popped(o.free@, q) != i) by {
                            assert(o.free@[l - 1 - q] == popped(o.free@, q));
                            assert(o.free@.contains(popped(o.free@, q)));
                        }
                        assert(self.ent[popped(o.free@, q) as int] == before.ent[popped(o.free@, q) as int]);
                    } else {
                        assert(q == k);
                        assert(popped(o.free@, q) == b);
                    }
                }
                assert forall|j: int| 0 <= j < o.ent.len() && j != i && !(exists|q: int| 0 <= q < k + 1 && popped(o.free@, q) == j)
                    implies #[trigger] self.ent[j] == o.ent[j] by {
                    assert(j != b);
                    assert(!(exists|q: int| 0 <= q < k && popped(o.free@, q) == j));
                }
                assert(self.free@ =~= o.free@.subrange(0, l - (k + 1)));
                assert((k + 1) * share == k * share + share) by (nonlinear_arith);
            }
            k = k + 1;
        }
        proof {
            if mana_bounded(o.ent@) && c.f136 >= 0 {
                assert(c.f140 - count * share >= 0) by (nonlinear_arith)
                    requires
                        count * share <= spill,
                        (spill as int) <= (if c.f26 == 0 { c.f140 as int } else { c.f140 - c.f136 }),
                        c.f136 >= 0,
                ;
                assert(share <= spill) by (nonlinear_arith)
                    requires
                        count * share <= spill,
                        count >= 1,
                        share >= 1,
                ;
                assert(spill <= c.f140) by {
                    assert(c.f136 >= 0);
                }
                assert(c.f140 < 0x4000_0000);
                assert forall|j: int| 0 <= j < self.ent.len() implies 0 <= #[trigger] self.ent@[j].f140 < 0x4000_0000 by {
                    if j == i {
                    } else if exists|q: int| 0 <= q < count && popped(o.free@, q) == j {
                        let q = choose|q: int| 0 <= q < count && popped(o.free@, q) == j;
                        assert(ejected_sphere(self.ent[popped(o.free@, q) as int], own, share));
                    } else {
                        assert(self.ent[j] == o.ent[j]);
                    }
                }
            }
        }
    }

    /// Spawn castle `i`'s pieces for stage `st` (part-type `part`) at
    /// the offsets of `parts` from the tile corner (tlx, tly), until
    /// the list or the pool runs out; each is back-linked to the
    /// castle and the castle's chain root follows the last.
    fn spawn_stage_pieces(&mut self, i: usize, own: u16, st: u8, part: u8, tlx: u8, tly: u8, parts: &Vec<(u8, u8)>)
        requires
            old(self).wf(),
            old(self).slot_ok(i as int),
            old(self).ent[i as int].class64 != 0,
            parts.len() <= 8,
        ensures
            final(self).wf(),
            final(self).sounds == old(self).sounds,
            final(self).keeps_world(old(self)),
            final(self).ent.len() == old(self).ent.len(),
            ({
                let o = old(self);
                let l = o.free.len() as int;
                let n = if parts.len() < l { parts.len() as int } else { l };
                &&& final(self).free@ == o.free@.subrange(0, l - n)
                &&& forall|q: int| 0 <= q < n ==> is_stage_piece(
                    #[trigger] final(self).ent[popped(o.free@, q) as int],
                    i as int,
                    own,
                    st,
                    part,
                    ((w8(tlx + parts@[q].0) as int * 256) as u16, (w8(tly + parts@[q].1) as int * 256) as u16),
                )
                &&& final(self).ent[i as int] == (if n > 0 {
                    Ent { f52: popped(o.free@, n - 1) as u16, ..o.ent[i as int] }
                } else {
                    o.ent[i as int]
                })
                &&& forall|j: int| 0 <= j < o.ent.len() && j != i && !(exists|q: int| 0 <= q < n && popped(o.free@, q) == j)
                    ==> #[trigger] final(self).ent[j] == o.ent[j]
            }),
    {
        let ghost o = *old(self);
        let ghost l = o.free.len() as int;
        let mut k: usize = 0;
        assert(8u32 & 0x400u32 == 0) by (bit_vector);
        while k < parts.len()
            invariant
                self.wf(),
                o.wf(),
                o == *old(self),
                l == o.free.len(),
                parts.len() <= 8,
                1 <= i < self.ent.len(),
                self.ent.len() == o.ent.len(),
                !o.free@.contains(i),
                o.free@.no_duplicates(),
                k <= parts.len(),
                k <= l,
                self.free@ == o.free@.subrange(0, l - k),
                self.sounds == o.sounds,
                self.keeps_world(&o),
                self.ent[i as int] == (if k > 0 {
                    Ent { f52: popped(o.free@, k - 1) as u16, ..o.ent[i as int] }
                } else {
                    o.ent[i as int]
                }),
                forall|q: int| 0 <= q < k ==> is_stage_piece(
                    #[trigger] self.ent[popped(o.free@, q) as int],
                    i as int,
                    own,
                    st,
                    part,
                    ((w8(tlx + parts@[q].0) as int * 256) as u16, (w8(tly + parts@[q].1) as int * 256) as u16),
                ),
                forall|j: int| 0 <= j < o.ent.len() && j != i && !(exists|q: int| 0 <= q < k && popped(o.free@, q) == j)
                    ==> #[trigger] self.ent[j] == o.ent[j],
            ensures
                k == parts.len() || k == l,
            decreases parts.len() - k,
        {
            let (ox, oy) = parts[k];
            let px = (((tlx as u32 + ox as u32) % 256) * 256) as u16;
            let py = (((tly as u32 + oy as u32) % 256) * 256) as u16;
            let ghost before = *self;
            let p = match self.mc2_spawn_castle_piece(px, py, own, st, part) {
                Some(p) => p,
                None => {
                    proof {
                        assert(k == l);
                    }
                    break;
                },
            };
            let ghost mid = *self;
            let mut e = self.ent[p];
            e.f146 = i as u16;
            self.ent.set(p, e);
            let mut ci = self.ent[i];
            ci.f52 = p as u16;
            self.ent.set(i, ci);
            proof {
                assert(8u32 & 0x400u32 == 0) by (bit_vector);
                lemma_wf_same_classes(&mid, self);
                assert(before.free@.len() == l - k);
                assert(before.free@[l - k - 1] == o.free@[l - k - 1]);
                assert(p == popped(o.free@, k as int));
                assert forall|q: int| 0 <= q < k + 1 implies is_stage_piece(
                    #[trigger] self.ent[popped(o.free@, q) as int],
                    i as int,
                    own,
                    st,
                    part,
                    ((w8(tlx + parts@[q].0) as int * 256) as u16, (w8(tly + parts@[q].1) as int * 256) as u16),
                ) by {
                    if q < k {
                        assert(1 <= o.free[l - 1 - q] < o.ent.len());
                        assert(o.free@[l - 1 - q] != o.free@[l - 1 - k]);
                        assert(popped(o.free@, q) != i) by {
                            assert(o.free@[l - 1 - q] == popped(o.free@, q));
                            assert(o.free@.contains(popped(o.free@, q)));
                        }
                        assert(self.ent[popped(o.free@, q) as int] == before.ent[popped(o.free@, q) as int]);
                    } else {
                        assert(popped(o.free@, q) == p);
                    }
                }
                assert forall|j: int| 0 <= j < o.ent.len() && j != i && !(exists|q: int| 0 <= q < k + 1 && popped(o.free@, q) == j)
                    implies #[trigger] self.ent[j] == o.ent[j] by {
                    assert(j != p);
                    assert(!(exists|q: int| 0 <= q < k && popped(o.free@, q) == j));
                }
                assert(self.free@ =~= o.free@.subrange(0, l - (k + 1)));
            }
            k = k + 1;
        }
    }

    /// Rebuild castle `i`'s visible (10,79) pieces: free the old set
    /// (see [`free_stages_spec`]), walk down from the castle level to
    /// the highest researched stage (see [`walk_stage`]) and spawn one
    /// piece per offset of that stage's list (see
    /// [`stage_parts_spec`]) on its BUILD00 footprint, each
    /// back-linked to the castle, the castle's chain root on the last;
    /// the spawning stops when the pool runs dry. No pieces for an
    /// ownerless or level ≤ 0 castle, an unresearched castle or a stage
    /// without a BUILD00 row.
    #[verifier::spinoff_prover]
    #[verifier::rlimit(40)]
    pub fn mc2_castle_stages(&mut self, i: usize)
        requires
            old(self).wf(),
            old(self).slot_ok(i as int),
            old(self).ent[i as int].class64 != 0,
        ensures
            final(self).wf(),
            final(self).sounds == old(self).sounds,
            final(self).keeps_world(old(self)),
            final(self).ent.len() == old(self).ent.len(),
            ({
                let o = old(self);
                let c = o.ent[i as int];
                let sf = free_stages_spec(o.ent@, i as int);
                let st = walk_stage(o, c.id24, clamp_spec(c.f26 as int, 1, 7));
                let l = o.free.len() as int;
                if c.id24 == 0 || c.f26 <= 0 || st == 0 || st >= o.assets.build_tab.len() {
                    &&& final(self).ent@ == sf
                    &&& final(self).free == o.free
                } else {
                    let parts = stage_parts_spec(st as u8);
                    let n = if parts.len() < l { parts.len() as int } else { l };
                    let d = o.assets.build_tab[st];
                    let part = part_type_spec(o, c.id24, st as u8);
                    &&& final(self).free@ == o.free@.subrange(0, l - n)
                    &&& forall|q: int| 0 <= q < n ==> is_stage_piece(
                        #[trigger] final(self).ent[popped(o.free@, q) as int],
                        i as int,
                        c.id24,
                        st as u8,
                        part,
                        piece_pos(c, st as u8, d, q),
                    )
                    &&& final(self).ent[i as int] == (if n > 0 {
                        Ent { f52: popped(o.free@, n - 1) as u16, ..sf[i as int] }
                    } else {
                        sf[i as int]
                    })
                    &&& forall|j: int| 0 <= j < o.ent.len() && j != i && !(exists|q: int| 0 <= q < n && popped(o.free@, q) == j)
                        ==> #[trigger] final(self).ent[j] == sf[j]
                }
            }),
    {
        let c = self.ent[i];
        self.mc2_castle_free_stages(i);
        let ghost o = *old(self);
        let lvl = c.f26;
        let own = c.id24;
        if own == 0 || lvl <= 0 {
            return;
        }
        let mut stage: u8 = if lvl > 7 { 7 } else { lvl as u8 };
        assert(part_type_spec(&*self, own, stage) == part_type_spec(&o, own, stage));
        while stage > 0 && self.mc2_castle_part_type(own, stage) == 0
            invariant
                stage <= 7,
                own == o.ent[i as int].id24,
                walk_stage(&o, own, clamp_spec(o.ent[i as int].f26 as int, 1, 7)) == walk_stage(&o, own, stage as int),
                self.mc2_castle_research == o.mc2_castle_research,
            decreases stage,
        {
            stage = stage - 1;
        }
        if stage == 0 {
            return;
        }
        if (stage as usize) >= self.assets.build_tab.len() {
            return;
        }
        let part = self.mc2_castle_part_type(own, stage);
        assert(part_type_spec(&*self, own, stage) == part_type_spec(&o, own, stage));
        let d = self.assets.build_tab[stage as usize];
        let cx = ((c.x as u32 + 128) % 0x10000 / 256) as u8;
        let cy = ((c.y as u32 + 128) % 0x10000 / 256) as u8;
        let tlx = ((cx as u32 + 256 - (d.w / 2) as u32) % 256) as u8;
        let tly = ((cy as u32 + 256 - (d.h / 2) as u32) % 256) as u8;
        let parts = mc2_stage_parts(stage);
        proof {
            assert(tlx == w8(anchor(c.x) - d.w / 2));
            assert(tly == w8(anchor(c.y) - d.h / 2));
        }
        self.spawn_stage_pieces(i, own, stage, part, tlx, tly, &parts);
    }
    /// Is tile (gx, gy) closed to a castle's growth (see
    /// [`blocked_at`])?
    pub fn castle_tile_blocked(&self, gx: u8, gy: u8) -> (b: bool)
        requires
            self.wf(),
        ensures
            b == blocked_at(self.t, gx, gy),
    {
        reveal(blocked_at);
        let a = self.t.angle[tile(gx, gy)];
        a & 0x80 != 0 || (self.is_cave() && a & 8 != 0)
    }

    /// Does no other live castle overlap castle `i`'s box of
    /// half-extents (hw, hh)?
    fn no_castle_in_box(&self, i: usize, hw: i32, hh: i32) -> (r: bool)
        requires
            i < self.ent.len(),
            0 <= hw <= 0x8000,
            0 <= hh <= 0x8000,
        ensures
            r == !(exists|j: int| 1 <= j < self.ent.len() && castle_blocks(#[trigger] self.ent[j], j, self.ent[i as int], i as int, hw as int, hh as int)),
    {
        let c = self.ent[i];
        let n = self.ent.len();
        let mut j: usize = 1;
        while j < n
            invariant
                n == self.ent.len(),
                i < n,
                1 <= j <= n,
                c == self.ent[i as int],
                0 <= hw <= 0x8000,
                0 <= hh <= 0x8000,
                forall|q: int| 1 <= q < j ==> !castle_blocks(#[trigger] self.ent[q], q, c, i as int, hw as int, hh as int),
            decreases n - j,
        {
            let e = self.ent[j];
            let dx = wdiff(e.x, c.x);
            let dy = wdiff(e.y, c.y);
            let adx = if dx < 0 { -dx } else { dx };
            let ady = if dy < 0 { -dy } else { dy };
            if j != i && e.class64 == 3 && e.model65 == 2 && e.act_life >= 0 && e.flags & F_REAPED == 0 && adx
                < e.f80 as i32 + hw && ady < e.f82 as i32 + hh {
                assert(castle_blocks(self.ent[j as int], j as int, c, i as int, hw as int, hh as int));
                return false;
            }
            j = j + 1;
        }
        true
    }

    /// The space check's border walk (see [`ring_clear`]).
    fn ring_ok(&self, ox: u8, oy: u8, ow: u16, oh: u16, mx: u8, my: u8) -> (r: bool)
        requires
            self.wf(),
            ow <= 127,
            oh <= 127,
            my <= oh,
            mx <= ow,
        ensures
            r == ring_clear(self, ox as int, oy as int, ow as int, oh as int, mx as int, my as int),
    {
        reveal(ring_clear);
        let w2: u16 = 2 * ow;
        let h2: u16 = 2 * oh;
        let mut row: u8 = 0;
        while row < my
            invariant
                self.wf(),
                row <= my,
                ow <= 127,
                oh <= 127,
                w2 == 2 * ow,
                h2 == 2 * oh,
                my <= oh,
                forall|r: int, col: int|
                    0 <= r < row && 0 <= col < w2 ==> !#[trigger] blocked_spec(self, ox + col, oy + r) && !blocked_spec(
                        self,
                        ox + col,
                        oy + h2 - my + r,
                    ),
            decreases my - row,
        {
            let mut col: u16 = 0;
            while col < w2
                invariant
                    self.wf(),
                    row < my,
                    col <= w2,
                    ow <= 127,
                    oh <= 127,
                    w2 == 2 * ow,
                    h2 == 2 * oh,
                    my <= oh,
                    forall|r: int, cc: int|
                        0 <= r < row && 0 <= cc < w2 ==> !#[trigger] blocked_spec(self, ox + cc, oy + r) && !blocked_spec(
                            self,
                            ox + cc,
                            oy + h2 - my + r,
                        ),
                    forall|cc: int|
                        0 <= cc < col ==> !#[trigger] blocked_spec(self, ox + cc, oy + row) && !blocked_spec(
                            self,
                            ox + cc,
                            oy + h2 - my + row,
                        ),
                decreases w2 - col,
            {
                let gx = ((ox as u32 + col as u32) % 256) as u8;
                let gy = ((oy as u32 + row as u32) % 256) as u8;
                let gy2 = ((oy as u32 + h2 as u32 + 256 - my as u32 + row as u32) % 256) as u8;
                assert(gx == w8(ox + col) && gy == w8(oy + row) && gy2 == w8(oy + h2 - my + row));
                let b1 = self.castle_tile_blocked(gx, gy);
                let b2 = self.castle_tile_blocked(gx, gy2);
                if b1 || b2 {
                    assert(!ring_clear(self, ox as int, oy as int, ow as int, oh as int, mx as int, my as int)) by {
                        reveal(ring_clear);
                        if ring_clear(self, ox as int, oy as int, ow as int, oh as int, mx as int, my as int) {
                            assert(0 <= row < my && 0 <= col < 2 * ow);
                            assert(!blocked_spec(self, ox as int + col as int, oy as int + row as int));
                        }
                    }
                    return false;
                }
                col = col + 1;
            }
            assert forall|r: int, cc: int| 0 <= r < row + 1 && 0 <= cc < w2 implies !#[trigger] blocked_spec(self, ox + cc, oy + r) && !blocked_spec(
                self,
                ox + cc,
                oy + h2 - my + r,
            ) by {
                if r == row {
                    assert(!blocked_spec(self, ox + cc, oy + row));
                }
            }
            row = row + 1;
        }
        let mut row: u8 = 0;
        while row < my
            invariant
                self.wf(),
                row <= my,
                ow <= 127,
                oh <= 127,
                my <= oh,
                mx <= ow,
                forall|r: int, col: int|
                    0 <= r < row && 0 <= col < mx ==> !#[trigger] blocked_spec(self, ox + col, oy + my + r) && !blocked_spec(
                        self,
                        (if r == 0 { ox + ow - mx } else { ox as int }) + col,
                        oy + my + r,
                    ),
            decreases my - row,
        {
            let mut col: u8 = 0;
            while col < mx
                invariant
                    self.wf(),
                    row < my,
                    col <= mx,
                    ow <= 127,
                    oh <= 127,
                    my <= oh,
                    mx <= ow,
                    forall|r: int, cc: int|
                        0 <= r < row && 0 <= cc < mx ==> !#[trigger] blocked_spec(self, ox + cc, oy + my + r) && !blocked_spec(
                            self,
                            (if r == 0 { ox + ow - mx } else { ox as int }) + cc,
                            oy + my + r,
                        ),
                    forall|cc: int|
                        0 <= cc < col ==> !#[trigger] blocked_spec(self, ox + cc, oy + my + row) && !blocked_spec(
                            self,
                            (if row == 0 { ox + ow - mx } else { ox as int }) + cc,
                            oy + my + row,
                        ),
                decreases mx - col,
            {
                let gx = ((ox as u32 + col as u32) % 256) as u8;
                let gy = ((oy as u32 + my as u32 + row as u32) % 256) as u8;
                let sx: u32 = if row == 0 { ox as u32 + ow as u32 - mx as u32 } else { ox as u32 };
                let gx2 = ((sx + col as u32) % 256) as u8;
                assert(gx == w8(ox + col) && gy == w8(oy + my + row) && gx2 == w8((if row == 0 { ox + ow - mx } else { ox as int }) + col));
                let b1 = self.castle_tile_blocked(gx, gy);
                let b2 = self.castle_tile_blocked(gx2, gy);
                if b1 || b2 {
                    assert(!ring_clear(self, ox as int, oy as int, ow as int, oh as int, mx as int, my as int)) by {
                        reveal(ring_clear);
                        if ring_clear(self, ox as int, oy as int, ow as int, oh as int, mx as int, my as int) {
                            assert(0 <= row < my && 0 <= col < mx);
                            assert(!blocked_spec(self, ox as int + col as int, oy as int + my as int + row as int));
                        }
                    }
                    return false;
                }
                assert(!blocked_spec(self, ox + col, oy + my + row));
                assert(!blocked_spec(self, (if row == 0 { ox + ow - mx } else { ox as int }) + col, oy + my + row));
                assert forall|cc: int| 0 <= cc < col + 1 implies !#[trigger] blocked_spec(self, ox + cc, oy + my + row) && !blocked_spec(
                    self,
                    (if row == 0 { ox + ow - mx } else { ox as int }) + cc,
                    oy + my + row,
                ) by {
                    if cc == col {
                        assert(!blocked_spec(self, (if row == 0 { ox + ow - mx } else { ox as int }) + col, oy + my + row));
                    }
                }
                col = col + 1;
            }
            assert forall|r: int, cc: int| 0 <= r < row + 1 && 0 <= cc < mx implies !#[trigger] blocked_spec(self, ox + cc, oy + my + r) && !blocked_spec(
                self,
                (if r == 0 { ox + ow - mx } else { ox as int }) + cc,
                oy + my + r,
            ) by {
                if r == row {
                    assert(!blocked_spec(self, ox + cc, oy + my + row));
                }
            }
            row = row + 1;
        }
        true
    }

    #[verifier::spinoff_prover]
    #[verifier::rlimit(60)]
    /// The level-up space check (see [`space_spec`]).
    pub fn mc2_castle_space_ok(&self, i: usize) -> (ok: bool)
        requires
            self.wf(),
            i < self.ent.len(),
        ensures
            ok == space_spec(self, i as int),
    {
        let c = self.ent[i];
        let f26 = c.f26 as i32;
        let cur: usize = if f26 < 0 { 0 } else if f26 > 7 { 7 } else { f26 as usize };
        let next: usize = if f26 + 1 < 1 { 1 } else if f26 + 1 > 7 { 7 } else { (f26 + 1) as usize };
        if cur >= self.assets.build_tab.len() || next >= self.assets.build_tab.len() {
            return true;
        }
        let dc = self.assets.build_tab[cur];
        let dn = self.assets.build_tab[next];
        let hw = half_extent(dn.w) as i32;
        let hh = half_extent(dn.h) as i32;
        if !self.no_castle_in_box(i, hw, hh) {
            return false;
        }
        let iw = half_extent(dc.w) / 256;
        let ih = half_extent(dc.h) / 256;
        let ow = (hw / 256) as u16;
        let oh = (hh / 256) as u16;
        let ox = anchor_minus(c.x, ow);
        let oy = anchor_minus(c.y, oh);
        let mx: u8 = if ow > iw { (ow - iw) as u8 } else { 0 };
        let my: u8 = if oh > ih { (oh - ih) as u8 } else { 0 };
        self.ring_ok(ox, oy, ow, oh, mx, my)
    }

    /// The (5,15) castle guard: a live class-5 model-15 record at
    /// (x, y, z).
    pub fn mc2_spawn_guard(&mut self, x: u16, y: u16, z: i16) -> (r: Option<usize>)
        requires
            old(self).wf(),
        ensures
            final(self).wf(),
            final(self).keeps_world(old(self)),
            final(self).sounds == old(self).sounds,
            match r {
                Some(i) => {
                    &&& old(self).free.len() > 0
                    &&& i == old(self).free@.last()
                    &&& final(self).free@ == old(self).free@.drop_last()
                    &&& final(self).ent@ == old(self).ent@.update(
                        i as int,
                        Ent { class64: 5, model65: 15, x, y, z, ..fresh_ent(i as int) },
                    )
                },
                None => {
                    &&& old(self).free.len() == 0
                    &&& final(self).free@ == old(self).free@
                    &&& final(self).ent == old(self).ent
                },
            },
    {
        let i = match self.new_event() {
            Some(i) => i,
            None => return None,
        };
        self.ent[i].class64 = 5;
        self.ent[i].model65 = 15;
        self.link(i, x, y, z);
        assert(self.ent@ =~= old(self).ent@.update(i as int, Ent { class64: 5, model65: 15, x, y, z, ..fresh_ent(i as int) }));
        Some(i)
    }

    /// The nearest (squared planar distance, first in pool order on a
    /// tie) sphere balloon `b` of `own` may fly for that no sibling in
    /// `fleet` already claims; 0 when none.
    fn nearest_fetchable(&self, b: usize, own: u16, fleet: &Vec<usize>) -> (r: usize)
        requires
            self.wf(),
            b < self.ent.len(),
            forall|k: int| 0 <= k < fleet.len() ==> #[trigger] fleet[k] < self.ent.len(),
        ensures
            r == 0 || (1 <= r < self.ent.len() && fetchable_sphere(self.ent[r as int], own)),
    {
        let bx = self.ent[b].x;
        let by = self.ent[b].y;
        let mut best: usize = 0;
        let mut best_d: i64 = 0x7FFF_FFFF;
        let n = self.ent.len();
        let mut j: usize = 1;
        while j < n
            invariant
                self.wf(),
                n == self.ent.len(),
                1 <= j <= n,
                best == 0 || (1 <= best < n && fetchable_sphere(self.ent[best as int], own)),
                forall|k: int| 0 <= k < fleet.len() ==> #[trigger] fleet[k] < self.ent.len(),
            decreases n - j,
        {
            let e = self.ent[j];
            if e.class64 == 10 && e.model65 == 39 && e.tick70 != 62 && e.flags & F_REAPED == 0 && e.flags
                & 0x2000 == 0 && e.f144 == own {
                let mut claimed = false;
                let mut k: usize = 0;
                while k < fleet.len()
                    invariant
                        k <= fleet.len(),
                        forall|q: int| 0 <= q < fleet.len() ==> #[trigger] fleet[q] < self.ent.len(),
                    decreases fleet.len() - k,
                {
                    let sb = fleet[k];
                    if sb != b && self.ent[sb].f146 as usize == j {
                        claimed = true;
                    }
                    k = k + 1;
                }
                if !claimed {
                    let d = Self::dist2_sq(bx, by, e.x, e.y);
                    if d < best_d {
                        best_d = d;
                        best = j;
                    }
                }
            }
            j = j + 1;
        }
        best
    }

    /// The court pass of castle `i` (balloons and guards): every own
    /// balloon that is dead or beyond the level's balloon quota
    /// dissolves into a sphere carrying its cargo; the fleet is filled
    /// up to the quota with fresh balloons; every balloon is sent home
    /// when the owner's bank and store reach capacity, and otherwise,
    /// on the fleet's stagger tick, a waiting balloon with cargo room
    /// is sent to the nearest unclaimed fetchable sphere (home when
    /// none); the guard cooldown ticks down, and with guards below the
    /// quota and the cooldown out one guard spawns in the courtyard
    /// (cooldown 16).
    #[verifier::spinoff_prover]
    #[verifier::rlimit(80)]
    pub fn mc2_castle_roster(&mut self, i: usize)
        requires
            old(self).wf(),
            old(self).slot_ok(i as int),
            old(self).ent[i as int].class64 != 0,
        ensures
            final(self).wf(),
            final(self).sounds == old(self).sounds,
            final(self).keeps_world(old(self)),
            final(self).ent.len() == old(self).ent.len(),
            forall|q: int|
                1 <= q < old(self).ent.len() && dead_balloon(old(self).ent[q], old(self).ent[i as int].id24)
                    ==> #[trigger] is_reaped(final(self).ent[q]),
            final(self).ent[i as int].f44 == cooled(old(self).ent[i as int].f44) || final(self).ent[i as int].f44 == 16,
            mana_bounded(old(self).ent@) ==> mana_bounded(final(self).ent@),
            roster_frame(old(self), final(self), i as int),
            old(self).ent[i as int].model65 != 3 ==> final(self).ent[i as int] == (Ent {
                f44: final(self).ent[i as int].f44,
                ..old(self).ent[i as int]
            }),
    {
        let c = self.ent[i];
        let own = c.id24;
        let (bq, gq) = mc2_castle_quota(c.f26);
        let ghost o = *old(self);
        let mut alive: Vec<usize> = Vec::new();
        let mut guards: usize = 0;
        let n = self.ent.len();
        let mut j: usize = 1;
        while j < n
            invariant
                self.wf(),
                o == *old(self),
                o.wf(),
                n == self.ent.len(),
                n == o.ent.len(),
                1 <= i < n,
                1 <= j <= n,
                own == o.ent[i as int].id24,
                self.sounds == o.sounds,
                self.keeps_world(&o),
                bq <= 3,
                alive.len() <= bq,
                forall|k: int| 0 <= k < alive.len() ==> 1 <= #[trigger] alive[k] < n,
                forall|q: int| 0 <= q < alive.len() ==> #[trigger] alive[q] != i || o.ent[i as int].model65 == 3,
                guards <= j,
                forall|k: int| 0 <= k < alive.len() ==> #[trigger] alive[k] < j,
                roster_frame(&o, self, i as int),
                forall|k: int| 0 <= k < alive.len() ==> self.ent[#[trigger] alive[k] as int].class64 == 3,
                self.ent[i as int].f44 == o.ent[i as int].f44,
                o.ent[i as int].model65 != 3 ==> self.ent[i as int] == o.ent[i as int],
                self.ent[i as int].class64 == o.ent[i as int].class64,
                mana_bounded(o.ent@) ==> mana_bounded(self.ent@),
                o.ent[i as int].class64 != 0,
                forall|q: int| 1 <= q < n && dead_balloon(o.ent[q], own) ==> {
                    &&& q < j ==> is_reaped(#[trigger] self.ent[q])
                    &&& q >= j ==> self.ent[q] == o.ent[q]
                    &&& self.ent[q].class64 == 3
                },
            decreases n - j,
        {
            let e = self.ent[j];
            if e.flags & F_REAPED == 0 && e.id24 == own && e.class64 == 3 && e.model65 == 3 {
                if e.act_life < 0 || alive.len() >= bq {
                    let ghost before = *self;
                    self.mc2_balloon_to_sphere(j);
                    proof {
                        assert(roster_frame(&o, self, i as int)) by {
                            assert forall|q: int| 0 <= q < o.ent.len() && q != i && o.ent[q].class64 != 0 && o.ent[q].class64 != 3
                                implies #[trigger] self.ent[q] == o.ent[q] by {
                                assert(before.ent[q] == o.ent[q]);
                                assert(before.ent[j as int].class64 == 3);
                                assert(q != j as int);
                                if before.free.len() > 0 && before.ent[j as int].f140 > 0 {
                                    let sl = before.free@.last();
                                    assert(before.free@.contains(sl));
                                    assert(before.ent[sl as int].class64 == 0);
                                    assert(q != sl as int);
                                    assert(self.ent@[q] == before.ent@[q]);
                                } else {
                                    assert(self.ent@[q] == before.ent@[q]);
                                }
                            }
                        }
                        assert forall|k: int| 0 <= k < alive.len() implies self.ent[#[trigger] alive[k] as int].class64 == 3 by {
                            assert(before.ent[alive[k] as int].class64 == 3);
                            if before.free.len() > 0 && before.ent[j as int].f140 > 0 {
                                let sl = before.free@.last();
                                assert(before.free@.contains(sl));
                                assert(before.ent[sl as int].class64 == 0);
                            }
                        }
                        lemma_or_reaped(before.ent[j as int].flags);
                        assert forall|q: int| 1 <= q < n && dead_balloon(o.ent[q], own) implies {
                            &&& q < j + 1 ==> is_reaped(#[trigger] self.ent[q])
                            &&& q >= j + 1 ==> self.ent[q] == o.ent[q]
                            &&& self.ent[q].class64 == 3
                        } by {
                            assert(before.ent[q].class64 == 3);
                            if before.free.len() > 0 && before.ent[j as int].f140 > 0 {
                                let sl = before.free@.last();
                                assert(before.free@.contains(sl));
                                assert(before.ent[sl as int].class64 == 0);
                                assert(sl != q);
                            }
                            if q == j {
                                lemma_or_reaped(before.ent[q].flags);
                            }
                        }
                        if mana_bounded(o.ent@) {
                            assert forall|x: int| 0 <= x < self.ent.len() implies 0 <= #[trigger] self.ent@[x].f140 < 0x4000_0000 by {
                                assert(0 <= before.ent@[x].f140 < 0x4000_0000);
                                assert(0 <= before.ent@[j as int].f140 < 0x4000_0000);
                            }
                        }
                        if i != j {
                            if before.free.len() > 0 && before.ent[j as int].f140 > 0 {
                                let sl = before.free@.last();
                                assert(before.free@.contains(sl));
                                assert(sl != i) by {
                                    if sl == i {
                                        assert(before.ent[sl as int].class64 == 0);
                                    }
                                }
                            }
                        }
                    }
                } else {
                    alive.push(j);
                }
            } else if e.flags & F_REAPED == 0 && e.id24 == own && e.class64 == 5 && e.model65 == 15 {
                guards = guards + 1;
            }
            j = j + 1;
        }
        let cx = self.ent[i].x;
        let cy = self.ent[i].y;
        let cz = self.ent[i].z;
        while alive.len() < bq
            invariant
                self.wf(),
                o.wf(),
                n == self.ent.len(),
                1 <= i < n,
                self.sounds == o.sounds,
                self.keeps_world(&o),
                bq <= 3,
                alive.len() <= bq,
                forall|k: int| 0 <= k < alive.len() ==> 1 <= #[trigger] alive[k] < n,
                forall|q: int| 0 <= q < alive.len() ==> #[trigger] alive[q] != i || o.ent[i as int].model65 == 3,
                self.ent[i as int].f44 == o.ent[i as int].f44,
                o.ent[i as int].model65 != 3 ==> self.ent[i as int] == o.ent[i as int],
                self.ent[i as int].class64 == o.ent[i as int].class64,
                mana_bounded(o.ent@) ==> mana_bounded(self.ent@),
                o.ent[i as int].class64 != 0,
                forall|q: int| 1 <= q < n && dead_balloon(o.ent[q], own) ==> {
                    &&& is_reaped(#[trigger] self.ent[q])
                    &&& self.ent[q].class64 == 3
                },
                roster_frame(&o, self, i as int),
                n == o.ent.len(),
                forall|k: int| 0 <= k < alive.len() ==> self.ent[#[trigger] alive[k] as int].class64 == 3,
            decreases bq - alive.len(),
        {
            let ghost before = *self;
            let b = match self.mc2_spawn_balloon(cx, cy, cz, own) {
                Some(b) => b,
                None => break,
            };
            proof {
                assert(before.free@.contains(b));
                assert(before.ent[b as int].class64 == 0);
                assert(b != i);
                assert(roster_frame(&o, self, i as int)) by {
                    assert forall|q: int| 0 <= q < o.ent.len() && q != i && o.ent[q].class64 != 0 && o.ent[q].class64 != 3
                        implies #[trigger] self.ent[q] == o.ent[q] by {
                        assert(before.ent[q] == o.ent[q]);
                    }
                }
                assert forall|k: int| 0 <= k < alive.len() implies self.ent[#[trigger] alive[k] as int].class64 == 3 by {
                    assert(before.ent[alive[k] as int].class64 == 3);
                }
                assert forall|q: int| 1 <= q < n && dead_balloon(o.ent[q], own) implies {
                    &&& is_reaped(#[trigger] self.ent[q])
                    &&& self.ent[q].class64 == 3
                } by {
                    assert(q != b);
                }
                if mana_bounded(o.ent@) {
                    assert forall|x: int| 0 <= x < self.ent.len() implies 0 <= #[trigger] self.ent@[x].f140 < 0x4000_0000 by {
                        assert(0 <= before.ent@[x].f140 < 0x4000_0000);
                    }
                }
            }
            alive.push(b);
        }
        let bank = self.mc2_owner_bank(own);
        let store: i64 = if self.ent[i].f140 < 0 { 0 } else { self.ent[i].f140 as i64 };
        let sum: i64 = bank as i64 + store;
        let sat: i64 = if sum > 0x7FFF_FFFF { 0x7FFF_FFFF } else { sum };
        let full = sat >= self.ent[i].f136 as i64;
        let stagger = bq != 0 && (self.ent[i].f63 as usize) % bq == 0;
        let mut k: usize = 0;
        while k < alive.len()
            invariant
                forall|q: int| 0 <= q < alive.len() ==> #[trigger] alive[q] != i || o.ent[i as int].model65 == 3,
                mana_bounded(o.ent@) ==> mana_bounded(self.ent@),
                self.wf(),
                o.wf(),
                n == self.ent.len(),
                1 <= i < n,
                self.sounds == o.sounds,
                self.keeps_world(&o),
                forall|q: int| 0 <= q < alive.len() ==> 1 <= #[trigger] alive[q] < n,
                self.ent[i as int].f44 == o.ent[i as int].f44,
                o.ent[i as int].model65 != 3 ==> self.ent[i as int] == o.ent[i as int],
                self.ent[i as int].class64 == o.ent[i as int].class64,
                mana_bounded(o.ent@) ==> mana_bounded(self.ent@),
                o.ent[i as int].class64 != 0,
                forall|q: int| 1 <= q < n && dead_balloon(o.ent[q], own) ==> {
                    &&& is_reaped(#[trigger] self.ent[q])
                    &&& self.ent[q].class64 == 3
                },
                k <= alive.len(),
                roster_frame(&o, self, i as int),
                n == o.ent.len(),
                forall|k: int| 0 <= k < alive.len() ==> self.ent[#[trigger] alive[k] as int].class64 == 3,
            decreases alive.len() - k,
        {
            let b = alive[k];
            let ghost before = *self;
            if full {
                let mut e = self.ent[b];
                e.f146 = i as u16;
                self.ent.set(b, e);
            } else if stagger && self.ent[b].tick70 == 9 {
                let mut e = self.ent[b];
                e.f146 = i as u16;
                self.ent.set(b, e);
                if self.ent[b].f140 < self.ent[b].f136 {
                    let best = self.nearest_fetchable(b, own, &alive);
                    if best != 0 {
                        let mut e = self.ent[b];
                        e.f146 = best as u16;
                        self.ent.set(b, e);
                    }
                }
            }
            proof {
                lemma_wf_same_classes(&before, self);
                assert(before.ent[b as int].class64 == 3);
                assert(self.ent@ =~= before.ent@.update(b as int, self.ent@[b as int]));
                assert(roster_frame(&o, self, i as int)) by {
                    assert forall|q: int| 0 <= q < o.ent.len() && q != i && o.ent[q].class64 != 0 && o.ent[q].class64 != 3
                        implies #[trigger] self.ent[q] == o.ent[q] by {
                        assert(before.ent[q] == o.ent[q]);
                        assert(q != b as int);
                    }
                }
                if mana_bounded(o.ent@) {
                    assert forall|x: int| 0 <= x < self.ent.len() implies 0 <= #[trigger] self.ent@[x].f140 < 0x4000_0000 by {
                        assert(0 <= before.ent@[x].f140 < 0x4000_0000);
                    }
                }
            }
            k = k + 1;
        }
        let f44 = self.ent[i].f44;
        let mut ci = self.ent[i];
        ci.f44 = if f44 > 0 { f44 - 1 } else { 0 };
        let ghost before = *self;
        self.ent.set(i, ci);
        proof {
            lemma_wf_same_classes(&before, self);
            assert(roster_frame(&o, self, i as int)) by {
                assert forall|q: int| 0 <= q < o.ent.len() && q != i && o.ent[q].class64 != 0 && o.ent[q].class64 != 3
                    implies #[trigger] self.ent[q] == o.ent[q] by {
                    assert(before.ent[q] == o.ent[q]);
                }
            }
            if mana_bounded(o.ent@) {
                assert forall|x: int| 0 <= x < self.ent.len() implies 0 <= #[trigger] self.ent@[x].f140 < 0x4000_0000 by {
                    assert(0 <= before.ent@[x].f140 < 0x4000_0000);
                }
            }
        }
        if guards < gq && self.ent[i].f44 == 0 {
            let gx = ((cx as u32 + 128) % 0x10000) as u16;
            let gy = ((cy as u32 + 640) % 0x10000) as u16;
            let gz = self.ground_z(gx, gy) as i16;
            let ghost before = *self;
            match self.mc2_spawn_guard(gx, gy, gz) {
                Some(g) => {
                    proof {
                        assert(before.free@.contains(g));
                        assert(before.ent[g as int].class64 == 0);
                        assert forall|q: int| 1 <= q < n && dead_balloon(o.ent[q], own) implies {
                            &&& is_reaped(#[trigger] self.ent[q])
                            &&& self.ent[q].class64 == 3
                        } by {
                            assert(q != g);
                        }
                        assert(g != i);
                    }
                    let ghost mid = *self;
                    let mut e = self.ent[g];
                    e.id24 = own;
                    e.f144 = own;
                    e.f30 = 512;
                    e.f34 = 512;
                    self.ent.set(g, e);
                    let mut ci = self.ent[i];
                    ci.f44 = 16;
                    self.ent.set(i, ci);
                    proof {
                        lemma_wf_same_classes(&mid, self);
                        assert(roster_frame(&o, self, i as int)) by {
                            assert forall|q: int| 0 <= q < o.ent.len() && q != i && o.ent[q].class64 != 0 && o.ent[q].class64 != 3
                                implies #[trigger] self.ent[q] == o.ent[q] by {
                                assert(before.ent[q] == o.ent[q]);
                            }
                        }
                        if mana_bounded(o.ent@) {
                            assert forall|x: int| 0 <= x < self.ent.len() implies 0 <= #[trigger] self.ent@[x].f140 < 0x4000_0000 by {
                                assert(0 <= before.ent@[x].f140 < 0x4000_0000);
                            }
                        }
                    }
                },
                None => {},
            }
        }
    }

    /// The gated 3×3 smoother (see [`Self::mc2_smooth_pad_edge`]) over
    /// `rows` × `cols` tiles from (x, y), row-major (a smoothed tile
    /// feeds its right and lower neighbours' windows).
    pub fn mc2_smooth_heights_region(&mut self, x: u8, y: u8, rows: u8, cols: u8)
        requires
            old(self).wf(),
        ensures
            final(self).wf(),
            terrain_frame(old(self), final(self)),
            final(self).ent == old(self).ent,
            final(self).t.angle == old(self).t.angle,
            final(self).t.ceiling == old(self).t.ceiling,
            final(self).t.tile_type == old(self).t.tile_type,
            final(self).terrain_dirty == old(self).terrain_dirty,
            final(self).building_regions == old(self).building_regions,
            final(self).paints == old(self).paints,
            final(self).t.height@ == smoothed_region(old(self).t.height@, old(self).t.tile_type@, x, y, cols as int, rows as int),
    {
        let mut r: u8 = 0;
        while r < rows
            invariant
                self.wf(),
                r <= rows,
                terrain_frame(old(self), self),
                self.ent == old(self).ent,
                self.t.angle == old(self).t.angle,
                self.t.ceiling == old(self).t.ceiling,
                self.t.tile_type == old(self).t.tile_type,
                self.terrain_dirty == old(self).terrain_dirty,
                self.building_regions == old(self).building_regions,
                self.paints == old(self).paints,
                self.t.height@ == smoothed_region(old(self).t.height@, old(self).t.tile_type@, x, y, cols as int, r as int),
            decreases rows - r,
        {
            let ghost h0 = self.t.height@;
            let gy = ((y as u32 + r as u32) % 256) as u8;
            let mut c: u8 = 0;
            while c < cols
                invariant
                    self.wf(),
                    c <= cols,
                    terrain_frame(old(self), self),
                    self.ent == old(self).ent,
                    self.t.angle == old(self).t.angle,
                    self.t.ceiling == old(self).t.ceiling,
                    self.t.tile_type == old(self).t.tile_type,
                    self.terrain_dirty == old(self).terrain_dirty,
                    self.building_regions == old(self).building_regions,
                    self.paints == old(self).paints,
                    self.t.height@ == smoothed_row(h0, old(self).t.tile_type@, x, gy, c as int),
                decreases cols - c,
            {
                let gx = ((x as u32 + c as u32) % 256) as u8;
                let ghost pre = *self;
                self.mc2_smooth_pad_edge(gx, gy);
                proof {
                    assert(gx == w8(x + (c as int + 1) - 1));
                    assert(self.t.height@ =~= smoothed(pre.t.height@, pre.t.tile_type@, gx, gy));
                }
                c = c + 1;
            }
            proof {
                assert(gy == w8(y + (r as int + 1) - 1));
            }
            r = r + 1;
        }
    }

    /// Un-stamp one BUILD00 footprint (row `row`) around record `i`:
    /// every active cell's angle keeps its middle bits and becomes
    /// walkable (1) and is queued for a retile; a pad height above the
    /// ground drops back by the cell height (with a random 0..19
    /// give-back in 29 of 50 draws), a pad at or below it goes to 0;
    /// then the footprint is smoothed. Only `i`'s random stream
    /// changes in the pool. Nothing but the dirty flag when the row or
    /// its cells are absent.
    pub fn mc2_castle_unstamp(&mut self, i: usize, row: u8)
        requires
            old(self).wf(),
            i < old(self).ent.len(),
        ensures
            final(self).wf(),
            terrain_frame(old(self), final(self)),
            final(self).terrain_dirty,
            final(self).t.ceiling == old(self).t.ceiling,
            final(self).paints == old(self).paints,
            final(self).ent@ == old(self).ent@.update(i as int, Ent { rand: final(self).ent[i as int].rand, ..old(self).ent[i as int] }),
            old(self).building_regions@.is_prefix_of(final(self).building_regions@),
    {
        self.terrain_dirty = true;
        if (row as usize) >= self.assets.build_tab.len() {
            return;
        }
        let d = self.assets.build_tab[row as usize];
        let w = d.w as usize;
        let h = d.h as usize;
        let start = d.offset as usize;
        assert(2 * w * h <= 2 * 255 * 255) by (nonlinear_arith)
            requires
                w <= 255,
                h <= 255,
        ;
        let area = 2 * w * h;
        if start > self.assets.build_dat.len() || area > self.assets.build_dat.len() - start {
            return;
        }
        let ex = self.ent[i].x;
        let ey = self.ent[i].y;
        let tlx = anchor_minus(ex, (w / 2) as u16);
        let tly = anchor_minus(ey, (h / 2) as u16);
        let ghost e0 = old(self).ent[i as int];
        let mut dy: usize = 0;
        while dy < h
            invariant
                self.wf(),
                terrain_frame(old(self), self),
                self.terrain_dirty,
                self.t.ceiling == old(self).t.ceiling,
                self.paints == old(self).paints,
                self.ent@ == old(self).ent@.update(i as int, Ent { rand: self.ent[i as int].rand, ..e0 }),
                e0 == old(self).ent[i as int],
                i < self.ent.len(),
                i < old(self).ent.len(),
                old(self).building_regions@.is_prefix_of(self.building_regions@),
                w <= 255,
                h <= 255,
                start + 2 * w * h <= self.assets.build_dat.len(),
            decreases h - dy,
        {
            let mut dx: usize = 0;
            while dx < w
                invariant
                    self.wf(),
                    terrain_frame(old(self), self),
                    self.terrain_dirty,
                    self.t.ceiling == old(self).t.ceiling,
                    self.paints == old(self).paints,
                    self.ent@ == old(self).ent@.update(i as int, Ent { rand: self.ent[i as int].rand, ..e0 }),
                    e0 == old(self).ent[i as int],
                    i < self.ent.len(),
                    i < old(self).ent.len(),
                    old(self).building_regions@.is_prefix_of(self.building_regions@),
                    w <= 255,
                    h <= 255,
                    dy < h,
                    start + 2 * w * h <= self.assets.build_dat.len(),
                decreases w - dx,
            {
                assert(2 * (dy * w + dx) + 1 < 2 * w * h) by (nonlinear_arith)
                    requires
                        dy < h,
                        dx < w,
                ;
                let k = start + 2 * (dy * w + dx);
                let c0 = self.assets.build_dat[k];
                let c1 = self.assets.build_dat[k + 1];
                if !(c0 == 0xff && c1 == 0xff) {
                    let gx = ((tlx as usize + dx) % 256) as u8;
                    let gy = ((tly as usize + dy) % 256) as u8;
                    let t = tile(gx, gy);
                    let a = self.t.angle[t];
                    self.t.angle.set(t, (a & 0x70) | 1);
                    let ghost pre = self.building_regions@;
                    self.mc2_add_building_region(gx, gy, gx, gy);
                    assert(old(self).building_regions@.is_prefix_of(self.building_regions@)) by {
                        assert(pre.is_prefix_of(self.building_regions@));
                    }
                    if c1 != 0xff {
                        let cur = self.t.height[t];
                        if c1 >= cur {
                            self.t.height.set(t, 0);
                        } else {
                            let r1 = self.ent_rand(i);
                            if r1 % 0x32 <= 20 {
                                self.t.height.set(t, cur - c1);
                            } else {
                                let r2 = self.ent_rand(i);
                                let give = (r2 % 0x14) as u8;
                                let sub = c1.wrapping_sub(give);
                                self.t.height.set(t, cur.wrapping_sub(sub));
                            }
                        }
                    }
                }
                assert(self.ent@ =~= old(self).ent@.update(i as int, Ent { rand: self.ent[i as int].rand, ..e0 }));
                dx = dx + 1;
            }
            dy = dy + 1;
        }
        self.mc2_smooth_heights_region(tlx, tly, h as u8, w as u8);
    }

    /// Spawn a (10,42) build painter for castle `castle` on BUILD00 row
    /// `row` (see [`painter_spec`]); None on a full pool.
    pub fn mc2_spawn_castle_painter_at(&mut self, castle: usize, row: u8, repaint: bool) -> (r: Option<usize>)
        requires
            old(self).wf(),
            castle < old(self).ent.len(),
            castle < 0x10000,
        ensures
            final(self).wf(),
            final(self).keeps_world(old(self)),
            final(self).sounds == old(self).sounds,
            match r {
                Some(p) => {
                    &&& old(self).free.len() > 0
                    &&& p == old(self).free@.last()
                    &&& final(self).free@ == old(self).free@.drop_last()
                    &&& final(self).ent@ == old(self).ent@.update(
                        p as int,
                        painter_spec(old(self), p as int, old(self).ent[castle as int], castle as int, row, repaint),
                    )
                },
                None => {
                    &&& old(self).free.len() == 0
                    &&& final(self).free@ == old(self).free@
                    &&& final(self).ent == old(self).ent
                },
            },
    {
        let c = self.ent[castle];
        let p = match self.new_event() {
            Some(p) => p,
            None => return None,
        };
        let mut e = self.ent[p];
        e.class64 = 10;
        e.model65 = 42;
        e.tick70 = 0x2C;
        e.max_life = 0;
        e.f59 = if repaint { 1 } else { 0 };
        e.f71 = row;
        e.id24 = c.id24;
        e.f40 = castle as u16;
        e.x = c.x;
        e.y = c.y;
        e.z = c.site_z;
        self.ent.set(p, e);
        self.mc2_castle_extents_ent(p, row);
        assert(self.ent@ =~= old(self).ent@.update(
            p as int,
            painter_spec(old(self), p as int, c, castle as int, row, repaint),
        ));
        Some(p)
    }

    /// Spawn the build painter for castle `castle` on the BUILD00 row of
    /// its level (clamped to 0..=7, unclamped upward from 0: level 0
    /// selects the empty row 0); on success the castle waits for it
    /// (f59 = 4).
    pub fn mc2_spawn_castle_painter(&mut self, castle: usize, repaint: bool)
        requires
            old(self).wf(),
            castle < old(self).ent.len(),
            old(self).ent[castle as int].class64 != 0,
        ensures
            final(self).wf(),
            final(self).keeps_world(old(self)),
            final(self).sounds == old(self).sounds,
            ({
                let o = old(self);
                let c = o.ent[castle as int];
                let row = clamp_spec(c.f26 as int, 0, 7) as u8;
                if o.free.len() > 0 {
                    let p = o.free@.last();
                    &&& final(self).free@ == o.free@.drop_last()
                    &&& final(self).ent@ == o.ent@.update(p as int, painter_spec(o, p as int, c, castle as int, row, repaint)).update(
                        castle as int,
                        Ent { f59: 4, ..c },
                    )
                } else {
                    &&& final(self).free@ == o.free@
                    &&& final(self).ent == o.ent
                }
            }),
    {
        let f26 = self.ent[castle].f26;
        let row: u8 = if f26 < 0 { 0 } else if f26 > 7 { 7 } else { f26 as u8 };
        proof {
            if old(self).free.len() > 0 {
                assert(old(self).free@.contains(old(self).free@.last()));
            }
        }
        match self.mc2_spawn_castle_painter_at(castle, row, repaint) {
            Some(p) => {
                let ghost mid = *self;
                let mut c = self.ent[castle];
                c.f59 = 4;
                self.ent.set(castle, c);
                proof {
                    lemma_wf_same_classes(&mid, self);
                }
            },
            None => {},
        }
    }

    /// One level down: with a level above 0, a 10% capacity haircut
    /// (see [`cut_spec`]) scatters the excess store through the
    /// ejector, sound 30, the level's footprint is un-stamped, the
    /// level drops by one with its extents, ladder and stage pieces; a
    /// castle at or below level 0 afterwards dies — its pieces are
    /// freed, its owner's balloons dissolve into spheres and it is
    /// reaped.
    #[verifier::spinoff_prover]
    #[verifier::rlimit(80)]
    pub fn mc2_castle_downgrade(&mut self, i: usize, patches: WorldPatches)
        requires
            old(self).wf(),
            old(self).slot_ok(i as int),
            old(self).ent[i as int].class64 != 0,
            old(self).ent[i as int].f26 > 0 ==> {
                let c = old(self).ent[i as int];
                let cap = c.f136 - cut_spec(patches.mc2_downgrade_overflow, c.f136);
                &&& i32::MIN <= cap <= i32::MAX
                &&& i32::MIN <= c.f140 - cap <= i32::MAX
            },
        ensures
            final(self).wf(),
            final(self).ent.len() == old(self).ent.len(),
            final(self).ent[i as int].class64 == old(self).ent[i as int].class64,
            final(self).ent[i as int].model65 == old(self).ent[i as int].model65,
            final(self).ent[i as int].id24 == old(self).ent[i as int].id24,
            final(self).ent[i as int].f26 == (if old(self).ent[i as int].f26 > 0 {
                old(self).ent[i as int].f26 - 1
            } else {
                old(self).ent[i as int].f26 as int
            }),
            final(self).ent[i as int].f26 <= 0 ==> is_reaped(final(self).ent[i as int]),
            old(self).ent[i as int].f26 > 0 ==> final(self).ent[i as int].f136 == MC2_CASTLE_CAP@[clamp_spec(
                old(self).ent[i as int].f26 - 1,
                0,
                7,
            )],
            old(self).ent[i as int].f26 <= 0 ==> final(self).ent[i as int].f136 == old(self).ent[i as int].f136,
            old(self).ent[i as int].f26 <= 0 ==> final(self).ent[i as int].f140 == old(self).ent[i as int].f140,
            final(self).ent[i as int].f140 <= old(self).ent[i as int].f140,
            old(self).ent[i as int].f26 > 0 ==> final(self).ent[i as int].f140 >= (if old(self).ent[i as int].f140
                < old(self).ent[i as int].f136 - cut_spec(patches.mc2_downgrade_overflow, old(self).ent[i as int].f136) {
                old(self).ent[i as int].f140 as int
            } else {
                old(self).ent[i as int].f136 - cut_spec(patches.mc2_downgrade_overflow, old(self).ent[i as int].f136)
            }),
            final(self).assets == old(self).assets,
            final(self).t.tile_type == old(self).t.tile_type,
            final(self).t.ceiling == old(self).t.ceiling,
            final(self).mc2_castle_research == old(self).mc2_castle_research,
            final(self).rival_ents == old(self).rival_ents,
            final(self).mc2_life_scale == old(self).mc2_life_scale,
            old(self).ent[i as int].f26 > 1 && old(self).ent[i as int].class64 == 3 ==> final(self).ent[i as int].flags == old(
                self,
            ).ent[i as int].flags,
            final(self).ent[i as int].f26 <= 0 ==> forall|j: int| 1 <= j < final(self).ent.len() && j != i
                ==> !#[trigger] live_balloon_of(final(self).ent[j], old(self).ent[i as int].id24),
    {
        let ghost o = *old(self);
        if self.ent[i].f26 > 0 {
            let f136 = self.ent[i].f136;
            let cut: i32 = if patches.mc2_downgrade_overflow {
                (10i64 * f136 as i64 / 100) as i32
            } else {
                10i32.wrapping_mul(f136) / 100
            };
            let mut c = self.ent[i];
            c.f136 = f136 - cut;
            let ghost g0 = *self;
            self.ent.set(i, c);
            proof {
                lemma_wf_same_classes(&g0, self);
            }
            let ghost pre_eject = *self;
            self.mc2_castle_eject(i);
            assert(self.ent[i as int].f26 == o.ent[i as int].f26);
            assert(self.ent[i as int].flags == o.ent[i as int].flags);
            let mut c = self.ent[i];
            c.f136 = c.f136 + cut;
            let ghost g1 = *self;
            self.ent.set(i, c);
            proof {
                lemma_wf_same_classes(&g1, self);
            }
            self.snd(30, i);
            let lvl = self.ent[i].f26;
            let row: u8 = if lvl > 7 { 7 } else { lvl as u8 };
            assert(self.ent[i as int].flags == o.ent[i as int].flags);
            self.mc2_castle_unstamp(i, row);
            assert(self.ent[i as int].flags == o.ent[i as int].flags);
            let mut c = self.ent[i];
            c.f26 = lvl - 1;
            let ghost g2 = *self;
            self.ent.set(i, c);
            proof {
                lemma_wf_same_classes(&g2, self);
            }
            let l2: u8 = if lvl - 1 > 7 { 7 } else { (lvl - 1) as u8 };
            assert(self.ent[i as int].flags == o.ent[i as int].flags);
            self.mc2_castle_extents(i, l2);
            assert(self.ent[i as int].flags == o.ent[i as int].flags);
            self.mc2_castle_ladder(i);
            assert(self.ent[i as int].flags == o.ent[i as int].flags);
            assert(self.ent[i as int].f136 == MC2_CASTLE_CAP@[clamp_spec(o.ent[i as int].f26 - 1, 0, 7)]);
            let ghost g3 = *self;
            assert(o.ent[i as int].class64 == 3 ==> !is_piece_of(g3.ent[i as int], i as int));
            self.mc2_castle_stages(i);
            assert(self.ent[i as int].f136 == g3.ent[i as int].f136);
        }
        if self.ent[i].f26 <= 0 {
            let ghost g4 = *self;
            self.mc2_castle_free_stages(i);
            let own = self.ent[i].id24;
            let n = self.ent.len();
            let mut j: usize = 1;
            let ghost ci = self.ent[i as int];
            while j < n
                invariant
                    self.wf(),
                    n == self.ent.len(),
                    1 <= i < n,
                    1 <= j <= n,
                    self.ent[i as int] == ci,
                    ci.class64 != 0,
                    own == ci.id24,
                    self.assets == g4.assets,
                    self.t.tile_type == g4.t.tile_type,
                    self.t.ceiling == g4.t.ceiling,
                    self.mc2_castle_research == g4.mc2_castle_research,
                    self.rival_ents == g4.rival_ents,
                    self.mc2_life_scale == g4.mc2_life_scale,
                    forall|q: int| 1 <= q < j && q != i ==> !#[trigger] live_balloon_of(self.ent[q], own),
                decreases n - j,
            {
                let ghost b0 = *self;
                let e = self.ent[j];
                if j != i && e.class64 == 3 && e.model65 == 3 && e.id24 == own && e.flags & F_REAPED == 0 {
                    let ghost before = *self;
                    self.mc2_balloon_to_sphere(j);
                    proof {
                        lemma_or_reaped(before.ent[j as int].flags);
                        if before.free.len() > 0 && before.ent[j as int].f140 > 0 {
                            let sl = before.free@.last();
                            assert(before.free@.contains(sl));
                            assert(sl != i) by {
                                if sl == i {
                                    assert(before.ent[sl as int].class64 == 0);
                                }
                            }
                        }
                    }
                }
                proof {
                    assert forall|q: int| 1 <= q < j + 1 && q != i implies !#[trigger] live_balloon_of(self.ent[q], own) by {
                        if q < j {
                            assert(!live_balloon_of(b0.ent[q], own));
                        }
                    }
                }
                j = j + 1;
            }
            let mut c = self.ent[i];
            c.flags = c.flags | F_REAPED;
            let ghost g5 = *self;
            self.ent.set(i, c);
            proof {
                lemma_wf_same_classes(&g5, self);
                lemma_or_reaped(g5.ent[i as int].flags);
            }
        }
    }

    /// The level-up: a kill-armed painter for the next level (level + 1
    /// clamped to 1..=7) — abandoned on a full pool — then sound 10,
    /// the new level, action 5 waiting for the painter, extents on
    /// castle and painter, ladder, stage pieces, and +1 castle-spell
    /// XP mailed for the human's castle.
    #[verifier::spinoff_prover]
    #[verifier::rlimit(80)]
    pub fn mc2_castle_upgrade(&mut self, i: usize)
        requires
            old(self).wf(),
            old(self).slot_ok(i as int),
            old(self).ent[i as int].class64 != 0,
        ensures
            final(self).wf(),
            final(self).ent.len() == old(self).ent.len(),
            old(self).free.len() == 0 ==> {
                &&& final(self).ent == old(self).ent
                &&& final(self).free@ == old(self).free@
                &&& final(self).sounds == old(self).sounds
                &&& final(self).mc2_cast_xp == old(self).mc2_cast_xp
            },
            old(self).free.len() > 0 ==> {
                let p = old(self).free@.last() as int;
                let own = old(self).ent[i as int].id24;
                &&& final(self).ent[i as int].f26 == next_level(old(self).ent[i as int].f26)
                &&& final(self).ent[i as int].tick70 == 5
                &&& final(self).ent[i as int].f59 == 4
                &&& final(self).ent[p].class64 == 10
                &&& final(self).ent[p].model65 == 42
                &&& final(self).ent[p].flags & F_BUILD_KILL != 0
                &&& final(self).ent[p].f40 == i as u16
                &&& final(self).ent[p].f71 == next_level(old(self).ent[i as int].f26) as u8
                &&& final(self).sounds@ == old(self).sounds@.push((10u8, i as u16))
                &&& final(self).mc2_cast_xp@ == (if own == PLAYER_TARGET {
                    old(self).mc2_cast_xp@.push((own, 2u8, 1i32))
                } else {
                    old(self).mc2_cast_xp@
                })
            },
            final(self).assets == old(self).assets,
            final(self).t == old(self).t,
    {
        let f26 = self.ent[i].f26 as i32;
        let lvl: i16 = if f26 + 1 < 1 { 1 } else if f26 + 1 > 7 { 7 } else { (f26 + 1) as i16 };
        proof {
            if old(self).free.len() > 0 {
                assert(old(self).free@.contains(old(self).free@.last()));
            }
        }
        let p = match self.mc2_spawn_castle_painter_at(i, lvl as u8, false) {
            Some(p) => p,
            None => return,
        };
        assert(p != i);
        assert(2097152u32 & 0x20_0000u32 != 0) by (bit_vector);
        let mut e = self.ent[p];
        let fl = e.flags;
        e.flags = fl | F_BUILD_KILL;
        assert((fl | 0x20_0000u32) & 0x20_0000u32 != 0) by (bit_vector);
        let ghost g0 = *self;
        self.ent.set(p, e);
        proof {
            lemma_wf_same_classes(&g0, self);
        }
        self.snd(10, i);
        let mut c = self.ent[i];
        c.f26 = lvl;
        c.tick70 = 5;
        c.f59 = 4;
        let ghost g1 = *self;
        self.ent.set(i, c);
        proof {
            lemma_wf_same_classes(&g1, self);
        }
        self.mc2_castle_extents(i, lvl as u8);
        self.mc2_castle_extents_ent(p, lvl as u8);
        self.mc2_castle_ladder(i);
        let ghost g2 = *self;
        self.mc2_castle_stages(i);
        proof {
            assert(self.ent[p as int] == g2.ent[p as int]) by {
                assert(!g2.free@.contains(p)) by {
                    if g2.free@.contains(p) {
                        let k = choose|k: int| 0 <= k < g2.free.len() && g2.free@[k] == p;
                        assert(g2.ent[g2.free[k] as int].class64 == 0);
                    }
                }
                if exists|q: int| 0 <= q < g2.free.len() && popped(g2.free@, q) == p {
                    let q = choose|q: int| 0 <= q < g2.free.len() && popped(g2.free@, q) == p;
                    assert(g2.free@.contains(popped(g2.free@, q)));
                }
                assert(!is_piece_of(g2.ent[p as int], i as int));
            }
        }
        let own = self.ent[i].id24;
        if own == PLAYER_TARGET {
            self.mc2_cast_xp.push((own, 2, 1));
        }
    }

    /// Castle action 6, one level destroyed: with a free pool slot the
    /// castle downgrades, returns to action 4, ejects, runs its roster
    /// and settles for 5 ticks (f59 = 0, f50 = 5); on a full pool it
    /// only returns to action 4. (The stated outcome is the castle's;
    /// a balloon record handed in may be dissolved by its own roster.)
    #[verifier::spinoff_prover]
    #[verifier::rlimit(80)]
    pub fn mc2_castle_destroy(&mut self, i: usize, patches: WorldPatches)
        requires
            old(self).wf(),
            old(self).slot_ok(i as int),
            old(self).ent[i as int].class64 != 0,
            0 <= old(self).ent[i as int].f140,
            0 <= old(self).ent[i as int].f136,
        ensures
            final(self).wf(),
            final(self).ent.len() == old(self).ent.len(),
            destroy_rel(old(self), final(self), i as int, patches),
    {
        if self.free.len() == 0 {
            let mut c = self.ent[i];
            c.tick70 = 4;
            let ghost g0 = *self;
            self.ent.set(i, c);
            proof {
                lemma_wf_same_classes(&g0, self);
            }
            return;
        }
        proof {
            let c = old(self).ent[i as int];
            let cut = cut_spec(patches.mc2_downgrade_overflow, c.f136);
            if patches.mc2_downgrade_overflow {
                assert(0 <= cut <= c.f136 / 10 + 1) by (nonlinear_arith)
                    requires
                        cut == tdiv(10 * c.f136 as int, 100),
                        c.f136 >= 0,
                ;
            } else {
                let w = vstd::wrapping::i32_specs::wrapping_mul(10, c.f136);
                assert(-21474837 <= cut <= 21474837) by (nonlinear_arith)
                    requires
                        cut == tdiv(w as int, 100),
                        i32::MIN <= w <= i32::MAX,
                ;
            }
        }
        self.mc2_castle_downgrade(i, patches);
        proof {
            assert(MC2_CASTLE_CAP@ =~= seq![5000i32, 8500, 18000, 38800, 78600, 158200, 317400, 300_000_000]);
        }
        let mut c = self.ent[i];
        c.tick70 = 4;
        let ghost g0 = *self;
        self.ent.set(i, c);
        proof {
            lemma_wf_same_classes(&g0, self);
        }
        let ghost m = *self;
        self.mc2_castle_eject(i);
        let ghost e1 = *self;
        self.mc2_castle_roster(i);
        let ghost r1 = *self;
        let mut c = self.ent[i];
        c.f59 = 0;
        c.f50 = 5;
        let ghost g1 = *self;
        self.ent.set(i, c);
        proof {
            lemma_wf_same_classes(&g1, self);
            let mc = m.ent[i as int];
            let st = mc.f140 as int;
            let n = eject_count(st, m.free.len() as int);
            if mc.f26 == 0 && st > 0 && m.free.len() > 0 && mc.model65 != 3 {
                assert(spill_spec(mc, bank_capped(&m, mc.id24)) == st);
                assert(0 <= st - n * (st / n) < n) by (nonlinear_arith)
                    requires
                        1 <= n,
                        0 <= st,
                ;
                assert forall|q: int| 0 <= q < n implies ejected_sphere(#[trigger] self.ent[popped(m.free@, q) as int], mc.id24, (st / n) as i32) by {
                    let pq = popped(m.free@, q);
                    assert(ejected_sphere(e1.ent[pq as int], mc.id24, (st / n) as i32));
                    assert(m.free@.contains(pq));
                    assert(m.ent[pq as int].class64 == 0);
                    assert(pq as int != i as int);
                    assert(r1.ent[pq as int] == e1.ent[pq as int]);
                }
            }
            if mc.model65 != 3 {
                assert(spill_rel(&m, self, i as int));
            }
        }
    }

    /// The castle's damage intake: 2 when already dead; a channel-0
    /// hit subtracts its amount straight from life — lethal: the
    /// killer is remembered and the channel source cleared, 2; survived:
    /// the channel emptied, the human's castle raises the under-attack
    /// latch, 1 — and no hit is 0; after a non-lethal intake a channel-5
    /// upgrade request keyed by the castle's own id is consumed and
    /// arms the upgrade below level 7.
    pub fn mc2_castle_intake(&mut self, i: usize) -> (r: u8)
        requires
            old(self).wf(),
            i < old(self).ent.len(),
            old(self).ent[i as int].act_life >= 0 && old(self).ent[i as int].mail[0].1 != 0 ==> i32::MIN
                <= old(self).ent[i as int].act_life - (old(self).ent[i as int].mail[0].0 as i32) <= i32::MAX,
        ensures
            final(self).wf(),
            final(self).free == old(self).free,
            final(self).sounds == old(self).sounds,
            final(self).ent.len() == old(self).ent.len(),
            forall|j: int| 0 <= j < old(self).ent.len() && j != i ==> #[trigger] final(self).ent[j] == old(self).ent[j],
            ({
                let e = old(self).ent[i as int];
                let f = final(self).ent[i as int];
                let hit = e.mail[0].1 != 0;
                let life = e.act_life - (e.mail[0].0 as i32);
                let survived = Ent { act_life: life as i32, mail: f.mail, ..e };
                let req = e.mail[5].1 == e.id24 && e.mail[5].1 != 0;
                if e.act_life < 0 {
                    &&& r == 2
                    &&& f == e
                    &&& final(self).castle_alert == old(self).castle_alert
                } else if hit && life < 0 {
                    &&& r == 2
                    &&& f == (Ent { act_life: life as i32, f36: e.mail[0].1, mail: f.mail, ..e })
                    &&& f.mail@ == e.mail@.update(0, (e.mail[0].0, 0u16))
                    &&& final(self).castle_alert == old(self).castle_alert
                } else {
                    let m1 = if hit { e.mail@.update(0, (0u32, 0u16)) } else { e.mail@ };
                    let m2 = if req { m1.update(5, (0u32, 0u16)) } else { m1 };
                    &&& r == (if hit { 1u8 } else { 0u8 })
                    &&& f == (Ent {
                        act_life: (if hit { life as i32 } else { e.act_life }),
                        mail: f.mail,
                        flags: (if req && e.f26 < 7 { e.flags | F_UPGRADE_ARMED } else { e.flags }),
                        ..e
                    })
                    &&& f.mail@ == m2
                    &&& final(self).castle_alert == (if hit && e.id24 == PLAYER_TARGET { 4u8 } else { old(self).castle_alert })
                }
            }),
            final(self).t == old(self).t,
            final(self).assets == old(self).assets,
            final(self).balloon_alert == old(self).balloon_alert,
            final(self).mc2_castle_research == old(self).mc2_castle_research,
            final(self).mc2_cast_xp == old(self).mc2_cast_xp,
            final(self).rival_ents == old(self).rival_ents,
            final(self).mc2_life_scale == old(self).mc2_life_scale,
            final(self).terrain_dirty == old(self).terrain_dirty,
            final(self).building_regions == old(self).building_regions,
            final(self).paints == old(self).paints,
            final(self).mc2_spell_tokens == old(self).mc2_spell_tokens,
            final(self).mc2_rebound_precise == old(self).mc2_rebound_precise,
    {
        let mut e = self.ent[i];
        if e.act_life < 0 {
            return 2;
        }
        let ghost g0 = *self;
        let mut result: u8 = 0;
        if e.mail[0].1 != 0 {
            let (amt, src) = e.mail[0];
            e.act_life = e.act_life - amt as i32;
            if e.act_life < 0 {
                e.f36 = src;
                e.mail[0] = (amt, 0);
                self.ent.set(i, e);
                proof {
                    lemma_wf_same_classes(&g0, self);
                }
                return 2;
            }
            e.mail[0] = (0, 0);
            result = 1;
            if e.id24 == PLAYER_TARGET {
                self.castle_alert = 4;
            }
        }
        if e.mail[5].1 == e.id24 && e.mail[5].1 != 0 {
            e.mail[5] = (0, 0);
            if e.f26 < 7 {
                e.flags = e.flags | F_UPGRADE_ARMED;
            }
        }
        self.ent.set(i, e);
        proof {
            lemma_wf_same_classes(&g0, self);
        }
        result
    }

    /// Is any (10,42) painter still alive?
    fn painter_alive(&self) -> (r: bool)
        requires
            self.wf(),
        ensures
            r == exists|j: int| 1 <= j < self.ent.len() && #[trigger] self.ent[j].class64 == 10 && self.ent[j].model65 == 42
                && self.ent[j].flags & F_REAPED == 0,
    {
        let n = self.ent.len();
        let mut j: usize = 1;
        while j < n
            invariant
                n == self.ent.len(),
                1 <= j <= n,
                forall|q: int| 1 <= q < j ==> !(#[trigger] self.ent[q].class64 == 10 && self.ent[q].model65 == 42
                    && self.ent[q].flags & F_REAPED == 0),
            decreases n - j,
        {
            let e = self.ent[j];
            if e.class64 == 10 && e.model65 == 42 && e.flags & F_REAPED == 0 {
                assert(self.ent[j as int].class64 == 10);
                return true;
            }
            j = j + 1;
        }
        false
    }

    /// Snap record `i` onto the ground under it.
    fn snap_to_ground(&mut self, i: usize)
        requires
            old(self).wf(),
            i < old(self).ent.len(),
        ensures
            final(self).wf(),
            final(self).free == old(self).free,
            final(self).sounds == old(self).sounds,
            final(self).keeps_world(old(self)),
            final(self).ent@ == old(self).ent@.update(
                i as int,
                Ent { z: old(self).ground_spec(old(self).ent[i as int].x, old(self).ent[i as int].y) as i16, ..old(self).ent[i as int] },
            ),
    {
        let mut c = self.ent[i];
        c.z = self.ground_z(c.x, c.y) as i16;
        let ghost g0 = *self;
        self.ent.set(i, c);
        proof {
            lemma_wf_same_classes(&g0, self);
        }
    }

    /// Castle action 4, the standing tick. While the settle timer runs
    /// (f50 ≠ 0) the castle only settles: at 1 it moves on to the
    /// repaint painter (action 5, state 3) once the flood's grab has
    /// let go (`grabbed` false), above 1 it counts down and snaps to
    /// the ground. Otherwise it takes its intake — a lethal intake
    /// switches to action 6, an armed upgrade (the latch cleared) to
    /// action 5 state 0 — snaps to the ground, claims its census key
    /// (f144 = its owner) and on even ticks ejects, refreshes its
    /// extents, runs its roster and swallows a sphere.
    #[verifier::spinoff_prover]
    #[verifier::rlimit(80)]
    pub fn mc2_castle_standing(&mut self, i: usize, grabbed: bool)
        requires
            old(self).wf(),
            old(self).slot_ok(i as int),
            old(self).ent[i as int].class64 != 0,
            mana_bounded(old(self).ent@),
            0 <= old(self).ent[i as int].f136,
            old(self).ent[i as int].act_life >= 0 && old(self).ent[i as int].mail[0].1 != 0 ==> i32::MIN
                <= old(self).ent[i as int].act_life - (old(self).ent[i as int].mail[0].0 as i32) <= i32::MAX,
        ensures
            final(self).wf(),
            final(self).ent.len() == old(self).ent.len(),
            standing_rel(old(self), final(self), i as int, grabbed),
    {
        let f50 = self.ent[i].f50;
        if f50 != 0 {
            if f50 == 1 {
                if !grabbed {
                    let mut c = self.ent[i];
                    c.tick70 = 5;
                    c.f59 = 3;
                    c.f50 = 0;
                    let ghost g0 = *self;
                    self.ent.set(i, c);
                    proof {
                        lemma_wf_same_classes(&g0, self);
                    }
                }
            } else {
                let mut c = self.ent[i];
                c.f50 = f50 - 1;
                let ghost g0 = *self;
                self.ent.set(i, c);
                proof {
                    lemma_wf_same_classes(&g0, self);
                }
                self.snap_to_ground(i);
            }
            return;
        }
        let ghost o = *old(self);
        let r = self.mc2_castle_intake(i);
        if r == 2 {
            let mut c = self.ent[i];
            c.tick70 = 6;
            let ghost g0 = *self;
            self.ent.set(i, c);
            proof {
                lemma_wf_same_classes(&g0, self);
            }
        } else {
            let fl = self.ent[i].flags;
            if fl & F_UPGRADE_ARMED != 0 {
                let mut c = self.ent[i];
                c.flags = fl & !F_UPGRADE_ARMED;
                c.f59 = 0;
                c.tick70 = 5;
                let ghost g0 = *self;
                self.ent.set(i, c);
                proof {
                    lemma_wf_same_classes(&g0, self);
                }
            }
            proof {
                let e = o.ent[i as int];
                let req = e.mail[5].1 == e.id24 && e.mail[5].1 != 0;
                let ef = e.flags;
                assert((ef | 0x40u32) & 0x40u32 != 0) by (bit_vector);
                if e.flags & F_UPGRADE_ARMED == 0 && !(req && e.f26 < 7) {
                    assert(fl == e.flags);
                }
            }
        }
        self.snap_to_ground(i);
        let mut c = self.ent[i];
        c.f144 = c.id24;
        let ghost g1 = *self;
        self.ent.set(i, c);
        proof {
            lemma_wf_same_classes(&g1, self);
            assert(mana_bounded(self.ent@)) by {
                assert forall|x: int| 0 <= x < self.ent.len() implies 0 <= #[trigger] self.ent@[x].f140 < 0x4000_0000 by {
                    assert(self.ent@[x].f140 == o.ent@[x].f140);
                    assert(0 <= o.ent@[x].f140 < 0x4000_0000);
                }
            }
        }
        let ghost pre_heavy = self.ent[i as int];
        if self.ent[i].f63 & 1 == 0 {
            self.mc2_castle_eject(i);
            let lvl = self.ent[i].f26;
            let l: u8 = if lvl < 0 { 0 } else if lvl > 7 { 7 } else { lvl as u8 };
            let ghost g2 = self.ent@;
            self.mc2_castle_extents(i, l);
            proof {
                assert(mana_bounded(self.ent@)) by {
                    assert forall|x: int| 0 <= x < self.ent.len() implies 0 <= #[trigger] self.ent@[x].f140 < 0x4000_0000 by {
                        assert(self.ent@[x].f140 == g2[x].f140);
                    }
                }
            }
            self.mc2_castle_roster(i);
            proof {
                assert forall|j: int| #[trigger] absorbable(self, i as int, j) implies i32::MIN <= self.ent[i as int].f140
                    + self.ent[j].f140 <= i32::MAX by {
                    assert(0 <= self.ent@[j].f140 < 0x4000_0000);
                    assert(0 <= self.ent@[i as int].f140 < 0x4000_0000);
                }
            }
            self.mc2_castle_absorb(i);
        }
    }

    /// Castle action 5, the build state machine on f59: 0 — pre-clear,
    /// then level up when the castle is at level 0 or has room, else
    /// give up (state 2, the upgrade latch cleared); 1 and 6 — settle
    /// onto the ground; 2 — back to standing (action 4, state 0); 3 —
    /// spawn the repaint painter; 4 — wait for the painter, and every
    /// 32nd tick with no painter alive fall back to state 3.
    #[verifier::spinoff_prover]
    #[verifier::rlimit(80)]
    pub fn mc2_castle_build(&mut self, i: usize)
        requires
            old(self).wf(),
            old(self).slot_ok(i as int),
            old(self).ent[i as int].class64 != 0,
        ensures
            final(self).wf(),
            final(self).ent.len() == old(self).ent.len(),
            build_rel(old(self), final(self), i as int),
    {
        let st = self.ent[i].f59;
        if st == 0 {
            let ghost g0 = *self;
            self.mc2_castle_preclear(i);
            proof {
                lemma_space_kept(&g0, &*self, i as int);
            }
            if self.ent[i].f26 == 0 || self.mc2_castle_space_ok(i) {
                self.mc2_castle_upgrade(i);
            } else {
                let mut c = self.ent[i];
                c.f59 = 2;
                c.flags = c.flags & !F_UPGRADE_ARMED;
                let ghost g1 = *self;
                self.ent.set(i, c);
                proof {
                    lemma_wf_same_classes(&g1, self);
                    let fl = g1.ent[i as int].flags;
                    assert((fl & !0x40u32) & 0x40u32 == 0) by (bit_vector);
                }
            }
        } else if st == 1 || st == 6 {
            self.snap_to_ground(i);
        } else if st == 2 {
            let mut c = self.ent[i];
            c.tick70 = 4;
            c.f59 = 0;
            let ghost g1 = *self;
            self.ent.set(i, c);
            proof {
                lemma_wf_same_classes(&g1, self);
            }
        } else if st == 3 {
            self.mc2_spawn_castle_painter(i, true);
        } else if st == 4 {
            self.snap_to_ground(i);
            if self.ent[i].f63 & 0x1F == 0 {
                if !self.painter_alive() {
                    let mut c = self.ent[i];
                    c.f59 = 3;
                    let ghost g1 = *self;
                    self.ent.set(i, c);
                    proof {
                        lemma_wf_same_classes(&g1, self);
                    }
                }
            }
        }
    }

    /// The class-3 model-2 dispatch: action 4 stands (see
    /// [`Self::mc2_castle_standing`]), 5 builds (see
    /// [`Self::mc2_castle_build`]), 6 destroys a level (see
    /// [`Self::mc2_castle_destroy`]); any other action stands still.
    pub fn mc2_castle_tick(&mut self, i: usize, patches: WorldPatches, grabbed: bool)
        requires
            old(self).wf(),
            old(self).slot_ok(i as int),
            old(self).ent[i as int].class64 != 0,
            old(self).ent[i as int].tick70 == 4 ==> {
                &&& mana_bounded(old(self).ent@)
                &&& 0 <= old(self).ent[i as int].f136
                &&& old(self).ent[i as int].act_life >= 0 && old(self).ent[i as int].mail[0].1 != 0 ==> i32::MIN
                    <= old(self).ent[i as int].act_life - (old(self).ent[i as int].mail[0].0 as i32) <= i32::MAX
            },
            old(self).ent[i as int].tick70 == 6 ==> {
                &&& 0 <= old(self).ent[i as int].f140
                &&& 0 <= old(self).ent[i as int].f136
            },
        ensures
            final(self).wf(),
            final(self).ent.len() == old(self).ent.len(),
            old(self).ent[i as int].tick70 == 4 ==> standing_rel(old(self), final(self), i as int, grabbed),
            old(self).ent[i as int].tick70 == 5 ==> build_rel(old(self), final(self), i as int),
            old(self).ent[i as int].tick70 == 6 ==> destroy_rel(old(self), final(self), i as int, patches),
            !(4 <= old(self).ent[i as int].tick70 <= 6) ==> {
                &&& final(self).ent == old(self).ent
                &&& final(self).free == old(self).free
                &&& final(self).sounds == old(self).sounds
            },
    {
        let a = self.ent[i].tick70;
        if a == 4 {
            self.mc2_castle_standing(i, grabbed);
        } else if a == 5 {
            self.mc2_castle_build(i);
        } else if a == 6 {
            self.mc2_castle_destroy(i, patches);
        }
    }

    /// The painter's working frame for BUILD00 row `row` (see
    /// [`frame_dims`]).
    fn painter_frame(&self, row: usize) -> (wh: (usize, usize))
        requires
            row < self.assets.build_tab.len(),
        ensures
            wh.0 == frame_dims(self.assets.build_tab@, row as int, row as int).0,
            wh.1 == frame_dims(self.assets.build_tab@, row as int, row as int).1,
            wh.0 <= 255,
            wh.1 <= 255,
    {
        let d = self.assets.build_tab[row];
        let mut w: usize = d.w as usize;
        let mut h: usize = d.h as usize;
        let mut r: usize = 1;
        proof {
            lemma_frame_dims(self.assets.build_tab@, row as int, 0);
        }
        while r <= row
            invariant
                1 <= r <= row + 1,
                row < self.assets.build_tab.len(),
                w == frame_dims(self.assets.build_tab@, row as int, r - 1).0,
                h == frame_dims(self.assets.build_tab@, row as int, r - 1).1,
                w <= 255,
                h <= 255,
            decreases row + 1 - r,
        {
            if r < self.assets.build_tab.len() {
                let rd = self.assets.build_tab[r];
                if rd.w as usize > w {
                    w = rd.w as usize;
                }
                if rd.h as usize > h {
                    h = rd.h as usize;
                }
            }
            r = r + 1;
        }
        (w, h)
    }

    /// The rise's terrain write over the w×h frame at (tlx, tly): each
    /// cell with a pending delta flattens its angle (walkable, queued
    /// for a retile) when its floor is 0 or its type is auto-flat, rises
    /// by 1/countdown of the delta, and on the last tick trades a built
    /// mark (bit 7) for the phase-B mark (bit 3, surface levels only);
    /// on caves every frame cell's ceiling eases toward max(floor,
    /// datum) + 100 and the cell is resealed; on surface levels the
    /// second-to-last tick clears bit 3.
    fn painter_apply(&mut self, tlx: u8, tly: u8, w: usize, h: usize, delta: &Vec<i32>, countdown: i32, datum: i32)
        requires
            old(self).wf(),
            w <= 255,
            h <= 255,
            delta.len() == w * h,
            1 <= countdown,
            -1100 <= datum <= 1100,
            forall|k: int| 0 <= k < delta.len() ==> -2000 <= #[trigger] delta[k] <= 2000,
        ensures
            final(self).wf(),
            terrain_frame(old(self), final(self)),
            final(self).ent == old(self).ent,
            final(self).terrain_dirty == old(self).terrain_dirty,
            final(self).paints == old(self).paints,
            old(self).building_regions@.is_prefix_of(final(self).building_regions@),
            old(self).t.ceiling.len() > 0 ==> forall|dx: int, dy: int|
                0 <= dx < w && 0 <= dy < h ==> sealed_right(final(self), #[trigger] frame_tile(tlx, tly, dx, dy)),
    {
        let cave = self.is_cave();
        let mut dy: usize = 0;
        while dy < h
            invariant
                self.wf(),
                terrain_frame(old(self), self),
                self.ent == old(self).ent,
                self.terrain_dirty == old(self).terrain_dirty,
                self.paints == old(self).paints,
                old(self).building_regions@.is_prefix_of(self.building_regions@),
                cave == (old(self).t.ceiling.len() > 0),
                w <= 255,
                h <= 255,
                dy <= h,
                delta.len() == w * h,
                1 <= countdown,
                -1100 <= datum <= 1100,
                forall|k: int| 0 <= k < delta.len() ==> -2000 <= #[trigger] delta[k] <= 2000,
                cave ==> forall|ex: int, ey: int|
                    0 <= ex < w && 0 <= ey < dy ==> sealed_right(self, #[trigger] frame_tile(tlx, tly, ex, ey)),
            decreases h - dy,
        {
            let mut dx: usize = 0;
            while dx < w
                invariant
                    self.wf(),
                    terrain_frame(old(self), self),
                    self.ent == old(self).ent,
                    self.terrain_dirty == old(self).terrain_dirty,
                    self.paints == old(self).paints,
                    old(self).building_regions@.is_prefix_of(self.building_regions@),
                    cave == (old(self).t.ceiling.len() > 0),
                    w <= 255,
                    h <= 255,
                    dy < h,
                    dx <= w,
                    delta.len() == w * h,
                    1 <= countdown,
                    -1100 <= datum <= 1100,
                    forall|k: int| 0 <= k < delta.len() ==> -2000 <= #[trigger] delta[k] <= 2000,
                    cave ==> forall|ex: int, ey: int|
                        0 <= ex < w && 0 <= ey < dy ==> sealed_right(self, #[trigger] frame_tile(tlx, tly, ex, ey)),
                    cave ==> forall|ex: int| 0 <= ex < dx ==> sealed_right(self, #[trigger] frame_tile(tlx, tly, ex, dy as int)),
                decreases w - dx,
            {
                assert(dy * w + dx < w * h) by (nonlinear_arith)
                    requires
                        dy < h,
                        dx < w,
                ;
                let d = delta[dy * w + dx];
                let gx = ((tlx as usize + dx) % 256) as u8;
                let gy = ((tly as usize + dy) % 256) as u8;
                let t = tile(gx, gy);
                assert(t == frame_tile(tlx, tly, dx as int, dy as int));
                let ghost pre = *self;
                if d != 0 {
                    let ty = self.t.tile_type[t];
                    let flat = (ty as usize) < self.assets.auto_flat.len() && self.assets.auto_flat[ty as usize];
                    if self.t.height[t] == 0 || flat {
                        let a = self.t.angle[t];
                        self.t.angle.set(t, (a & 0xF8) | 1);
                        let ghost pr = self.building_regions@;
                        self.mc2_add_building_region(gx, gy, gx, gy);
                        assert(old(self).building_regions@.is_prefix_of(self.building_regions@)) by {
                            assert(pr.is_prefix_of(self.building_regions@));
                        }
                    }
                    let hv = self.t.height[t] as i32 + d / countdown;
                    self.t.height.set(t, hv as u8);
                    if countdown == 1 && self.t.angle[t] & 0x80 != 0 {
                        let a = self.t.angle[t];
                        let mut na = a & 0x7F;
                        if !cave {
                            na = na | 8;
                        }
                        self.t.angle.set(t, na);
                    }
                }
                if cave {
                    let floor = self.t.height[t] as i32;
                    let base = if floor > datum { floor } else { datum };
                    let tgt = if base + 100 > 255 { 255 } else { base + 100 };
                    let c = self.t.ceiling[t] as i32;
                    if tgt > c {
                        self.t.ceiling.set(t, (c + (tgt - c) / countdown) as u8);
                    }
                    let a0 = self.t.angle[t];
                    assert((a0 | 8) & 8 != 0 && (a0 & 0xF7) & 8 == 0) by (bit_vector);
                    self.cave_seal_fixup(t);
                } else if countdown == 2 {
                    let a = self.t.angle[t];
                    self.t.angle.set(t, a & 0xF7);
                }
                proof {
                    if cave {
                        assert(sealed_right(self, t as int));
                        assert forall|ex: int, ey: int| 0 <= ex < w && 0 <= ey < dy implies sealed_right(self, #[trigger] frame_tile(tlx, tly, ex, ey)) by {
                            let tt = frame_tile(tlx, tly, ex, ey);
                            assert(sealed_right(&pre, tt));
                            if tt == t as int {
                                lemma_frame_tile_inj(tlx, tly, ex, ey, dx as int, dy as int);
                            }
                        }
                        assert forall|ex: int| 0 <= ex < dx + 1 implies sealed_right(self, #[trigger] frame_tile(tlx, tly, ex, dy as int)) by {
                            if ex < dx {
                                let tt = frame_tile(tlx, tly, ex, dy as int);
                                assert(sealed_right(&pre, tt));
                                if tt == t as int {
                                    lemma_frame_tile_inj(tlx, tly, ex, dy as int, dx as int, dy as int);
                                }
                            }
                        }
                    }
                }
                dx = dx + 1;
            }
            dy = dy + 1;
        }
    }

    /// The rise's accumulation over BUILD00 rows 1..=`row` mapped into
    /// the w×h frame at (tlx, tly): each cell with a pad height
    /// records its delta toward authored height + `datum`, each paint
    /// code is collected when painting, and with `kill` every cell of
    /// every row is purged for `owner` first (see
    /// [`Self::mc2_building_clear_tile`]).
    fn painter_accumulate(
        &mut self,
        tlx: u8,
        tly: u8,
        w: usize,
        h: usize,
        row: usize,
        datum: i32,
        do_paint: bool,
        kill: bool,
        owner: u16,
    ) -> (out: (Vec<i32>, Vec<(u8, u8, u8)>))
        requires
            old(self).wf(),
            row < old(self).assets.build_tab.len(),
            w == frame_dims(old(self).assets.build_tab@, row as int, row as int).0,
            h == frame_dims(old(self).assets.build_tab@, row as int, row as int).1,
            -1100 <= datum <= 1100,
        ensures
            final(self).wf(),
            final(self).keeps_world(old(self)),
            final(self).sounds == old(self).sounds,
            final(self).ent.len() == old(self).ent.len(),
            forall|j: int|
                0 <= j < old(self).ent.len() && old(self).ent[j].class64 != 2 && old(self).ent[j].class64 != 5
                    ==> #[trigger] final(self).ent[j] == old(self).ent[j],
            !kill ==> final(self).ent == old(self).ent && final(self).free == old(self).free,
            out.0.len() == w * h,
            forall|k: int| 0 <= k < out.0.len() ==> -2000 <= #[trigger] out.0[k] <= 2000,
    {
        proof {
            lemma_frame_dims(self.assets.build_tab@, row as int, row as int);
        }
        let mut delta: Vec<i32> = Vec::new();
        assert(w * h <= 255 * 255) by (nonlinear_arith)
            requires
                w <= 255,
                h <= 255,
        ;
        let area = w * h;
        let mut k: usize = 0;
        while k < area
            invariant
                k <= area,
                delta.len() == k,
                forall|q: int| 0 <= q < delta.len() ==> #[trigger] delta[q] == 0,
            decreases area - k,
        {
            delta.push(0);
            k = k + 1;
        }
        let mut paint: Vec<(u8, u8, u8)> = Vec::new();
        let ghost o = *old(self);
        let mut r: usize = 1;
        while r <= row
            invariant
                self.wf(),
                o == *old(self),
                self.keeps_world(&o),
                self.sounds == o.sounds,
                self.ent.len() == o.ent.len(),
                forall|j: int|
                    0 <= j < o.ent.len() && o.ent[j].class64 != 2 && o.ent[j].class64 != 5 ==> #[trigger] self.ent[j] == o.ent[j],
                !kill ==> self.ent == o.ent && self.free == o.free,
                delta.len() == w * h,
                forall|q: int| 0 <= q < delta.len() ==> -2000 <= #[trigger] delta[q] <= 2000,
                1 <= r <= row + 1,
                row < o.assets.build_tab.len(),
                w <= 255,
                h <= 255,
                forall|q: int| 1 <= q <= row && q < o.assets.build_tab.len() ==> w >= #[trigger] o.assets.build_tab[q].w && h >= o.assets.build_tab[q].h,
                -1100 <= datum <= 1100,
            decreases row + 1 - r,
        {
            if r < self.assets.build_tab.len() {
                let rd = self.assets.build_tab[r];
                let rw = rd.w as usize;
                let rh = rd.h as usize;
                let start = rd.offset as usize;
                assert(2 * rw * rh <= 2 * 255 * 255) by (nonlinear_arith)
                    requires
                        rw <= 255,
                        rh <= 255,
                ;
                let rarea = 2 * rw * rh;
                if start <= self.assets.build_dat.len() && rarea <= self.assets.build_dat.len() - start {
                    assert(rw <= w && rh <= h);
                    let offx = w / 2 - rw / 2;
                    let offy = h / 2 - rh / 2;
                    let mut dy: usize = 0;
                    while dy < rh
                        invariant
                            self.wf(),
                            o == *old(self),
                            self.keeps_world(&o),
                            self.sounds == o.sounds,
                            self.ent.len() == o.ent.len(),
                            forall|j: int|
                                0 <= j < o.ent.len() && o.ent[j].class64 != 2 && o.ent[j].class64 != 5 ==> #[trigger] self.ent[j] == o.ent[j],
                            !kill ==> self.ent == o.ent && self.free == o.free,
                            delta.len() == w * h,
                            forall|q: int| 0 <= q < delta.len() ==> -2000 <= #[trigger] delta[q] <= 2000,
                            rw <= w,
                            rh <= h,
                            w <= 255,
                            h <= 255,
                            offx == w / 2 - rw / 2,
                            offy == h / 2 - rh / 2,
                            start + 2 * rw * rh <= self.assets.build_dat.len(),
                            dy <= rh,
                            -1100 <= datum <= 1100,
                        decreases rh - dy,
                    {
                        let mut dx: usize = 0;
                        while dx < rw
                            invariant
                                self.wf(),
                                o == *old(self),
                                self.keeps_world(&o),
                                self.sounds == o.sounds,
                                self.ent.len() == o.ent.len(),
                                forall|j: int|
                                    0 <= j < o.ent.len() && o.ent[j].class64 != 2 && o.ent[j].class64 != 5 ==> #[trigger] self.ent[j] == o.ent[j],
                                !kill ==> self.ent == o.ent && self.free == o.free,
                                delta.len() == w * h,
                                forall|q: int| 0 <= q < delta.len() ==> -2000 <= #[trigger] delta[q] <= 2000,
                                rw <= w,
                                rh <= h,
                                w <= 255,
                                h <= 255,
                                offx == w / 2 - rw / 2,
                                offy == h / 2 - rh / 2,
                                start + 2 * rw * rh <= self.assets.build_dat.len(),
                                dy < rh,
                                dx <= rw,
                                -1100 <= datum <= 1100,
                            decreases rw - dx,
                        {
                            assert(2 * (dy * rw + dx) + 1 < 2 * rw * rh) by (nonlinear_arith)
                                requires
                                    dy < rh,
                                    dx < rw,
                            ;
                            let kk = start + 2 * (dy * rw + dx);
                            let c0 = self.assets.build_dat[kk];
                            let c1 = self.assets.build_dat[kk + 1];
                            let fx = offx + dx;
                            let fy = offy + dy;
                            assert(fx < w && fy < h);
                            let gx = ((tlx as usize + fx) % 256) as u8;
                            let gy = ((tly as usize + fy) % 256) as u8;
                            let t = tile(gx, gy);
                            if kill {
                                let ghost before = *self;
                                self.mc2_building_clear_tile(t, owner);
                                proof {
                                    assert forall|j: int|
                                        0 <= j < o.ent.len() && o.ent[j].class64 != 2 && o.ent[j].class64 != 5 implies #[trigger] self.ent[j] == o.ent[j] by {
                                        if j >= 1 {
                                            assert(self.ent[j] == purged(before.ent[j], t as int, owner));
                                        }
                                    }
                                }
                            }
                            if c1 != 0xff {
                                assert(fy * w + fx < w * h) by (nonlinear_arith)
                                    requires
                                        fy < h,
                                        fx < w,
                                ;
                                let v = c1 as i32 + datum - self.t.height[t] as i32;
                                delta.set(fy * w + fx, v);
                            }
                            if do_paint && c0 != 0xff {
                                paint.push((gx, gy, c0));
                            }
                            dx = dx + 1;
                        }
                        dy = dy + 1;
                    }
                }
            }
            r = r + 1;
        }
        (delta, paint)
    }

    /// The (10,42) build painter's tick: the first tick seeds the
    /// 19-tick countdown; a painter without a BUILD00 row is reaped.
    /// While the countdown runs (phase A) each tick — unless the
    /// parent castle is settling — raises the cumulative footprint of
    /// rows 1..=row by 1/countdown toward authored height + datum
    /// (purging the footprint first when kill-armed, painting on the
    /// 1st, every 7th and the last tick); at 0 the settle window
    /// starts (−1, or −25 for a repaint). In phase B the window counts
    /// up; on reaching 0 the surface footprint's bit-3 marks become
    /// built marks (bit 7), the live parent is told the pass is done
    /// (f59 = 2) and the painter is reaped. True when terrain changed.
    pub fn mc2_castle_painter_tick(&mut self, i: usize) -> (changed: bool)
        requires
            old(self).wf(),
            old(self).slot_ok(i as int),
            (old(self).ent[i as int].f40 as int) < old(self).ent.len(),
            old(self).ent[i as int].class64 == 10,
        ensures
            final(self).wf(),
            final(self).ent.len() == old(self).ent.len(),
            final(self).assets == old(self).assets,
            final(self).t.tile_type == old(self).t.tile_type,
            final(self).t.height.len() == old(self).t.height.len(),
            final(self).t.ceiling.len() == old(self).t.ceiling.len(),
            final(self).sounds == old(self).sounds,
            ({
                let e = old(self).ent[i as int];
                let f = final(self).ent[i as int];
                let c0 = if e.flags & 2 == 0 { 19 } else { e.f26 as int };
                let row = if e.f71 > 7 { 7 } else { e.f71 as int };
                &&& row >= old(self).assets.build_tab.len() ==> is_reaped(f) && !changed
                &&& row < old(self).assets.build_tab.len() && c0 <= 0 ==> {
                    &&& f.f26 == c0 + 1
                    &&& !changed
                    &&& c0 + 1 == 0 ==> is_reaped(f)
                }
                &&& row < old(self).assets.build_tab.len() && c0 == 1 ==> f.f26 == (if e.f59 != 0 { -25i16 } else { -1i16 }) && !changed
                &&& row < old(self).assets.build_tab.len() && c0 > 1 ==> f.f26 == c0 - 1
                &&& changed && old(self).t.ceiling.len() > 0 ==> ({
                    let (w, h) = frame_dims(old(self).assets.build_tab@, row, row);
                    let tlx = w8(anchor(e.x) - w / 2);
                    let tly = w8(anchor(e.y) - h / 2);
                    forall|dx: int, dy: int|
                        0 <= dx < w && 0 <= dy < h ==> sealed_right(final(self), #[trigger] frame_tile(tlx, tly, dx, dy))
                })
            }),
    {
        let ghost o = *old(self);
        let mut e = self.ent[i];
        if e.flags & 2 == 0 {
            e.flags = e.flags | 2;
            e.f26 = 19;
            let ghost g0 = *self;
            self.ent.set(i, e);
            proof {
                lemma_wf_same_classes(&g0, self);
            }
        }
        let parent = e.f40 as usize;
        let row: usize = if e.f71 > 7 { 7 } else { e.f71 as usize };
        if row >= self.assets.build_tab.len() {
            let mut e2 = self.ent[i];
            e2.flags = e2.flags | F_REAPED;
            let ghost g0 = *self;
            self.ent.set(i, e2);
            proof {
                lemma_wf_same_classes(&g0, self);
                lemma_or_reaped(g0.ent[i as int].flags);
            }
            return false;
        }
        let (w, h) = self.painter_frame(row);
        let tlx = anchor_minus(e.x, (w / 2) as u16);
        let tly = anchor_minus(e.y, (h / 2) as u16);
        if e.f26 <= 0 {
            let mut e2 = self.ent[i];
            e2.f26 = e2.f26 + 1;
            let ghost g0 = *self;
            self.ent.set(i, e2);
            proof {
                lemma_wf_same_classes(&g0, self);
            }
            if e2.f26 == 0 {
                if !self.is_cave() {
                    let mut dy: usize = 0;
                    while dy < h
                        invariant
                            self.wf(),
                            self.ent@ == g0.ent@.update(i as int, e2),
                            self.ent.len() == o.ent.len(),
                            self.free == o.free,
                            self.sounds == o.sounds,
                            self.assets == o.assets,
                            self.t.tile_type == o.t.tile_type,
                            self.t.height == o.t.height,
                            self.t.ceiling == o.t.ceiling,
                            self.t.angle.len() == o.t.angle.len(),
                            dy <= h,
                            w <= 255,
                            h <= 255,
                            i < g0.ent.len(),
                        decreases h - dy,
                    {
                        let mut dx: usize = 0;
                        while dx < w
                            invariant
                                self.wf(),
                                self.ent@ == g0.ent@.update(i as int, e2),
                                self.ent.len() == o.ent.len(),
                                self.free == o.free,
                                self.sounds == o.sounds,
                                self.assets == o.assets,
                                self.t.tile_type == o.t.tile_type,
                                self.t.height == o.t.height,
                                self.t.ceiling == o.t.ceiling,
                                self.t.angle.len() == o.t.angle.len(),
                                dx <= w,
                                dy < h,
                                w <= 255,
                                h <= 255,
                                i < g0.ent.len(),
                            decreases w - dx,
                        {
                            let gx = ((tlx as usize + dx) % 256) as u8;
                            let gy = ((tly as usize + dy) % 256) as u8;
                            let t = tile(gx, gy);
                            let a = self.t.angle[t];
                            if a & 8 != 0 {
                                self.t.angle.set(t, (a & 0xF7) | 0x80);
                            }
                            dx = dx + 1;
                        }
                        dy = dy + 1;
                    }
                }
                if parent != 0 && self.ent[parent].flags & F_REAPED == 0 && parent != i {
                    let mut pe = self.ent[parent];
                    pe.f59 = 2;
                    let ghost g1 = *self;
                    self.ent.set(parent, pe);
                    proof {
                        lemma_wf_same_classes(&g1, self);
                    }
                } else if parent == i && self.ent[i].flags & F_REAPED == 0 {
                    let mut pe = self.ent[i];
                    pe.f59 = 2;
                    let ghost g1 = *self;
                    self.ent.set(i, pe);
                    proof {
                        lemma_wf_same_classes(&g1, self);
                    }
                }
                let mut e3 = self.ent[i];
                e3.flags = e3.flags | F_REAPED;
                let ghost g2 = *self;
                self.ent.set(i, e3);
                proof {
                    lemma_wf_same_classes(&g2, self);
                    lemma_or_reaped(g2.ent[i as int].flags);
                }
            }
            return false;
        }
        let mut e2 = self.ent[i];
        e2.f26 = e2.f26 - 1;
        if e2.f26 == 0 {
            e2.f26 = if e2.f59 != 0 { -25 } else { -1 };
            let ghost g0 = *self;
            self.ent.set(i, e2);
            proof {
                lemma_wf_same_classes(&g0, self);
            }
            return false;
        }
        let ghost g0 = *self;
        self.ent.set(i, e2);
        proof {
            lemma_wf_same_classes(&g0, self);
        }
        if parent != 0 && self.ent[parent].f50 != 0 {
            return false;
        }
        let countdown = e2.f26 as i32;
        let zz = e2.z as i32;
        let datum: i32 = if zz >= 0 { zz / 32 } else { -((-zz + 31) / 32) };
        let do_paint = countdown % 7 == 0 || countdown == 1;
        let kill = e2.flags & F_BUILD_KILL != 0;
        let owner = e2.id24;
        let ghost g1 = *self;
        let (delta, paint) = self.painter_accumulate(tlx, tly, w, h, row, datum, do_paint, kill, owner);
        assert(self.ent[i as int] == g1.ent[i as int]);
        self.painter_apply(tlx, tly, w, h, &delta, countdown, datum);
        let ghost g3 = *self;
        let mut k: usize = 0;
        while k < paint.len()
            invariant
                self.wf(),
                self.ent == g3.ent,
                self.free == g3.free,
                self.sounds == g3.sounds,
                self.t == g3.t,
                self.assets == g3.assets,
                k <= paint.len(),
            decreases paint.len() - k,
        {
            let (gx, gy, code) = paint[k];
            self.mc2_paint_cell(7, gx, gy, code);
            k = k + 1;
        }
        true
    }

    /// The tile-ring distance between two anchor tiles (see
    /// [`ring_dist`]).
    pub fn ring_between(tx: u8, ty: u8, ax: u8, ay: u8) -> (r: u8)
        ensures
            r as int == ring_dist(tx, ty, ax, ay),
    {
        let dx = ((ax as u32 + 256 - tx as u32) % 256) as u8;
        let dy = ((ay as u32 + 256 - ty as u32) % 256) as u8;
        let a: u8 = if dx >= 128 { ((256 - dx as u32) % 256) as u8 } else { dx };
        let b: u8 = if dy >= 128 { ((256 - dy as u32) % 256) as u8 } else { dy };
        assert(dx == w8(ax - tx) && dy == w8(ay - ty));
        if a > b { a } else { b }
    }

    /// The piece's scan: among the human (first) and the pool records
    /// in pool order, the target (see [`piece_target`],
    /// [`player_target`]) in the nearest ring, the first such on a tie;
    /// None when nothing is in rings 3..=12.
    #[verifier::spinoff_prover]
    #[verifier::rlimit(80)]
    pub fn mc2_piece_scan(&self, i: usize, player: Option<(u16, u16, i16)>) -> (r: Option<u16>)
        requires
            self.wf(),
            i < self.ent.len(),
        ensures
            ({
                let p = self.ent[i as int];
                match r {
                    None => !player_target(p, player) && forall|j: int|
                        1 <= j < self.ent.len() ==> !piece_target(p, i as int, #[trigger] self.ent[j], j),
                    Some(t) => {
                        ||| (t == PLAYER_TARGET && player_target(p, player) && forall|j: int|
                            1 <= j < self.ent.len() && piece_target(p, i as int, #[trigger] self.ent[j], j) ==> ring_of(
                                p,
                                self.ent[j],
                            ) >= player_ring(p, player))
                        ||| (1 <= t < self.ent.len() && piece_target(p, i as int, self.ent[t as int], t as int) && (player_target(p, player)
                            ==> player_ring(p, player) > ring_of(p, self.ent[t as int])) && forall|j: int|
                            1 <= j < self.ent.len() && piece_target(p, i as int, #[trigger] self.ent[j], j) ==> ring_of(p, self.ent[j])
                                >= ring_of(p, self.ent[t as int]) && (j < t ==> ring_of(p, self.ent[j]) > ring_of(
                                p,
                                self.ent[t as int],
                            )))
                    },
                }
            }),
    {
        let p = self.ent[i];
        let own = p.id24;
        let tx = anchor_minus(p.x, 0);
        let ty = anchor_minus(p.y, 0);
        assert(tx == anchor(p.x) && ty == anchor(p.y));
        let mut best: u16 = 0;
        let mut best_r: u8 = 0;
        let mut have = false;
        if own != PLAYER_TARGET {
            match player {
                Some((hx, hy, _hz)) => {
                    let r = Self::ring_between(tx, ty, anchor_minus(hx, 0), anchor_minus(hy, 0));
                    if 3 <= r && r <= 12 {
                        best = PLAYER_TARGET;
                        best_r = r;
                        have = true;
                    }
                },
                None => {},
            }
        }
        let n = self.ent.len();
        let mut j: usize = 1;
        while j < n
            invariant
                self.wf(),
                n == self.ent.len(),
                i < n,
                1 <= j <= n,
                p == self.ent[i as int],
                own == p.id24,
                tx == anchor(p.x),
                ty == anchor(p.y),
                n <= 0x8000,
                !have ==> !player_target(p, player) && forall|q: int| 1 <= q < j ==> !piece_target(p, i as int, #[trigger] self.ent[q], q),
                have ==> {
                    ||| (best == PLAYER_TARGET && player_target(p, player) && best_r == player_ring(p, player) && forall|q: int|
                        1 <= q < j && piece_target(p, i as int, #[trigger] self.ent[q], q) ==> ring_of(p, self.ent[q]) >= best_r)
                    ||| (1 <= best < j && piece_target(p, i as int, self.ent[best as int], best as int) && best_r == ring_of(p, self.ent[best as int])
                        && (player_target(p, player) ==> player_ring(p, player) > best_r) && forall|q: int|
                        1 <= q < j && piece_target(p, i as int, #[trigger] self.ent[q], q) ==> ring_of(p, self.ent[q]) >= best_r && (q < best
                            ==> ring_of(p, self.ent[q]) > best_r))
                },
            decreases n - j,
        {
            let e = self.ent[j];
            if j != i && e.flags & F_REAPED == 0 && e.id24 != own {
                let hostile = (e.class64 == 3 && (e.model65 <= 1 || e.model65 == 3)) || (e.class64 == 5 && e.model65 != 22);
                if hostile {
                    let r = Self::ring_between(tx, ty, anchor_minus(e.x, 0), anchor_minus(e.y, 0));
                    if 3 <= r && r <= 12 && (!have || r < best_r) {
                        best = j as u16;
                        best_r = r;
                        have = true;
                    }
                }
            }
            j = j + 1;
        }
        if have {
            Some(best)
        } else {
            None
        }
    }

    /// The piece's shot at its latched target (states 7 and 8): a
    /// target that is gone (none, the absent human, or a dead or
    /// reaped record) sends the piece back to dwell (f28 = 0, state 1).
    /// Otherwise the fire mode's (spell, tier) (see [`mode_shot`])
    /// picks the projectile arm; the projectile spawns at the piece's
    /// muzzle (z + f78) aimed dead-on at the target, owned by the
    /// castle's wizard, homing on the target, the tier's payload in
    /// f44; the first shot of a burst sounds; the piece latches the
    /// firing direction and steps its recoil and burst counters; the
    /// burst's end (or a full pool never does) returns it to state 1,
    /// else it stays in state 8.
    pub fn mc2_piece_fire(&mut self, i: usize, player: Option<(u16, u16, i16)>)
        requires
            old(self).wf(),
            old(self).slot_ok(i as int),
            old(self).ent[i as int].class64 != 0,
            old(self).ent[i as int].f28 == 0 || old(self).ent[i as int].f28 == PLAYER_TARGET || (old(self).ent[i as int].f28 as int)
                < old(self).ent.len(),
        ensures
            final(self).wf(),
            final(self).keeps_world(old(self)),
            final(self).ent.len() == old(self).ent.len(),
            fire_rel(old(self), final(self), i as int, player),
    {
        let e = self.ent[i];
        let tgt = e.f28;
        let mut tpos: Option<(u16, u16, i16)> = None;
        if tgt == 0 {
        } else if tgt == PLAYER_TARGET {
            tpos = player;
        } else {
            let t = self.ent[tgt as usize];
            if t.act_life >= 0 && t.flags & F_REAPED == 0 {
                tpos = Some((t.x, t.y, t.z));
            }
        }
        let (tx, ty, tz) = match tpos {
            Some(v) => v,
            None => {
                let mut c = self.ent[i];
                c.f28 = 0;
                c.f71 = 1;
                let ghost g0 = *self;
                self.ent.set(i, c);
                proof {
                    lemma_wf_same_classes(&g0, self);
                }
                return;
            },
        };
        let mode = e.f30;
        let (spell, tier): (usize, usize) = if mode == 0 {
            (0, 1)
        } else if mode == 1 {
            (7, 0)
        } else if mode == 2 {
            (7, 1)
        } else if mode == 3 {
            (0, 2)
        } else {
            (9, 0)
        };
        let first = e.f71 == 7;
        let sub: SubSpell = if spell < self.assets.spells.len() {
            self.assets.spells[spell].tiers[tier]
        } else {
            SubSpell { mana_cost: 0, hint_text: 0, sub_spell: 0, word_0x18: 0, font_type: 0, max_mana_limit: 0, xpos1: 0, life: 0 }
        };
        assert(sub == mode_sub(old(self), mode));
        let mut spawned: Option<(u16, u16)> = None;
        match World::mc2_dispatch_arm(spell, sub.life) {
            Some(arm) => {
                let mx = e.x;
                let my = e.y;
                let mz = e.z.wrapping_add(e.f78 as i16);
                let ghost g0 = *self;
                match self.mc2_spawn_cast_proj(arm.subtype, mx, my, mz) {
                    Some(p) => {
                        let own = e.id24;
                        let yaw = Self::angle_between(mx, my, tx, ty);
                        let d2 = Self::dist2_sq(mx, my, tx, ty);
                        let dh = Self::isqrt(d2 as u32) as i32;
                        let pitch = Self::pitch_toward(mz, tz, dh);
                        let ghost g1 = *self;
                        let mut pe = self.ent[p];
                        pe.id24 = own;
                        pe.f68 = arm.impact.0;
                        pe.f69 = arm.impact.1;
                        pe.f44 = if sub.sub_spell < 0 { 0 } else if sub.sub_spell > 0xFFFF { 0xFFFF } else { sub.sub_spell as u16 };
                        if arm.charge {
                            pe.f71 = if sub.life < 0 { 0 } else { sub.life as u8 };
                        }
                        pe.f30 = yaw;
                        pe.pitch32 = pitch;
                        pe.f34 = yaw;
                        pe.f36 = pitch;
                        pe.f126 = if pe.f126 < 384 { 384 } else if pe.f126 > 0x2000 { 0x2000 } else { pe.f126 };
                        pe.f146 = tgt;
                        if own == PLAYER_TARGET && spell == 0 {
                            pe.type86 = 42;
                            pe.frame88 = 0;
                        }
                        self.ent.set(p, pe);
                        proof {
                            lemma_wf_same_classes(&g1, self);
                            assert(g0.free@.contains(p));
                            assert(p != i) by {
                                if p == i {
                                    assert(g0.ent[p as int].class64 == 0);
                                }
                            }
                        }
                        spawned = Some((yaw, pitch));
                    },
                    None => {},
                }
            },
            None => {},
        }
        let mut done = false;
        match spawned {
            Some((yaw, pitch)) => {
                if first {
                    let v6: u8 = if spell == 0 { 9 } else if spell == 7 && tier == 0 { 23 } else if spell == 7 { 9 } else { 15 };
                    self.snd(v6, i);
                }
                let mut c = self.ent[i];
                c.f34 = yaw & 0x7FF;
                c.f36 = pitch & 0x7FF;
                let rec = c.f68 as i8;
                c.f68 = if rec == 0 {
                    1
                } else {
                    let nx = rec.wrapping_add(1);
                    (if nx < 5 { nx } else { 5 }) as u8
                };
                c.f69 = c.f69.wrapping_sub(1);
                if c.f69 == 0 {
                    done = true;
                }
                let ghost g2 = *self;
                self.ent.set(i, c);
                proof {
                    lemma_wf_same_classes(&g2, self);
                }
            },
            None => {},
        }
        let mut c = self.ent[i];
        if done {
            c.f28 = 0;
            c.f71 = 1;
        } else {
            c.f71 = 8;
        }
        let ghost g3 = *self;
        self.ent.set(i, c);
        proof {
            lemma_wf_same_classes(&g3, self);
        }
    }

    /// The recoil offset for recoil step `rec` (|rec| 1..6 →
    /// 0/115/230/334/368/384).
    fn recoil_offset(rec: i8) -> (off: i16)
        ensures
            0 <= off <= 384,
    {
        let a: i16 = if rec < 0 { -(rec as i16) } else { rec as i16 };
        if a == 1 {
            0
        } else if a == 2 {
            115
        } else if a == 3 {
            230
        } else if a == 4 {
            334
        } else if a == 5 {
            368
        } else {
            384
        }
    }

    /// The piece's tail: the recoil kick (displaced back from the home
    /// anchor along the latched firing direction, the step walking out
    /// to 6 and back from −5) and the z law (up to the stage height
    /// ground + 384/224, riding the windup boost, or bobbing).
    fn piece_tail(&mut self, i: usize)
        requires
            old(self).wf(),
            old(self).slot_ok(i as int),
        ensures
            final(self).wf(),
            final(self).keeps_world(old(self)),
            final(self).free == old(self).free,
            final(self).sounds == old(self).sounds,
            final(self).ent@ == old(self).ent@.update(
                i as int,
                Ent {
                    x: final(self).ent[i as int].x,
                    y: final(self).ent[i as int].y,
                    z: final(self).ent[i as int].z,
                    f68: final(self).ent[i as int].f68,
                    ..old(self).ent[i as int]
                },
            ),
    {
        let e = self.ent[i];
        let rec = e.f68 as i8;
        if rec != 0 {
            let off = Self::recoil_offset(rec);
            let mut pos = (e.dest_x, e.dest_y, e.site_z);
            Self::polar_step(&mut pos, e.f34, e.f36, -off);
            self.move_relink(i, pos.0, pos.1, pos.2);
            let next = rec.wrapping_add(1);
            let mut c = self.ent[i];
            c.f68 = if next > 6 { 0xFBu8 } else { next as u8 };
            let ghost g0 = *self;
            self.ent.set(i, c);
            proof {
                lemma_wf_same_classes(&g0, self);
            }
        }
        let c = self.ent[i];
        let lift: i32 = if c.f26 <= 1 { 384 } else { 224 };
        let want = (self.ground_z(c.x, c.y) + lift) as i16;
        let z = c.z;
        let mut nz = z;
        if z < want {
            nz = want;
        } else if c.f54 != 0 {
            nz = want.wrapping_add(c.f54 as i16);
        } else if c.f68 == 0 {
            let d = z - want;
            if d > 32 {
                nz = nz - 16;
            }
            nz = if c.f63 & 8 != 0 { nz + 6 } else { nz - 6 };
        }
        let mut c2 = self.ent[i];
        c2.z = nz;
        let ghost g1 = *self;
        self.ent.set(i, c2);
        proof {
            lemma_wf_same_classes(&g1, self);
        }
    }

    /// The (10,79) defender piece's tick: a dead or ownerless piece is
    /// reaped. The brain's states: 0 latches the home anchor; 1 seeds
    /// a 16..=63-tick dwell (already one tick down); 2 dwells; 3 scans
    /// every 64 ticks (see [`Self::mc2_piece_scan`]) and winds up on a
    /// target; 4/5 wind up 4 ticks (+160 z each); 6 picks the fire mode
    /// (1% mode 4, 5% the rare part mode, else the part's common mode;
    /// 6 shots for the common modes, 1 for the rare) and fires; 7/8
    /// fire (see [`Self::mc2_piece_fire`]); 9 is reaped; 10 drops an
    /// owned sphere and is reaped. Then the recoil kick and the z law
    /// run.
    pub fn mc2_castle_piece_tick(&mut self, i: usize, player: Option<(u16, u16, i16)>)
        requires
            old(self).wf(),
            old(self).slot_ok(i as int),
            old(self).ent[i as int].class64 != 0,
            old(self).ent[i as int].f28 == 0 || old(self).ent[i as int].f28 == PLAYER_TARGET || (old(self).ent[i as int].f28 as int)
                < old(self).ent.len(),
        ensures
            final(self).wf(),
            final(self).ent.len() == old(self).ent.len(),
            final(self).t == old(self).t,
            final(self).assets == old(self).assets,
            ({
                let e = old(self).ent[i as int];
                let f = final(self).ent[i as int];
                let live = e.act_life >= 0 && e.id24 != 0;
                &&& !live ==> final(self).ent@ == old(self).ent@.update(i as int, Ent { flags: e.flags | F_REAPED, ..e })
                &&& live && e.f71 == 0 ==> f.f71 == 1 && f.dest_x == e.x && f.dest_y == e.y && f.site_z == e.z
                &&& live && e.f71 == 1 ==> f.f71 == 2 && f.f44 == (lcg_next(e.rand) % 48 + 16 - 1) as u16
                &&& live && e.f71 == 2 ==> f.f44 == (if e.f44 > 0 { e.f44 - 1 } else { 0 }) && f.f71 == (if e.f44 <= 1 {
                    3u8
                } else {
                    2u8
                })
                &&& live && e.f71 == 3 && e.f63 & 0x3F != 0 ==> f.f71 == 3
                &&& live && (e.f71 == 9 || e.f71 == 10) ==> is_reaped(f)
                &&& live && 6 <= e.f71 <= 8 ==> f.f71 == 1 || f.f71 == 8
            }),
            ({
                let e = old(self).ent[i as int];
                let live = e.act_life >= 0 && e.id24 != 0;
                &&& live && (e.f71 == 7 || e.f71 == 8) ==> exists|m: Gen|
                    fire_rel(old(self), &m, i as int, player) && #[trigger] tail_rel(&m, final(self), i as int)
                &&& live && e.f71 == 6 ==> exists|p: Gen, m: Gen|
                    #[trigger] fire_pick(old(self), &p, i as int) && fire_rel(&p, &m, i as int, player) && #[trigger] tail_rel(&m, final(self), i as int)
            }),
    {
        let e = self.ent[i];
        if e.act_life < 0 || e.id24 == 0 {
            let mut c = e;
            c.flags = c.flags | F_REAPED;
            let ghost g0 = *self;
            self.ent.set(i, c);
            proof {
                lemma_wf_same_classes(&g0, self);
            }
            return;
        }
        let mut fire = false;
        let st = e.f71;
        if st == 0 {
            let mut c = e;
            c.dest_x = c.x;
            c.dest_y = c.y;
            c.site_z = c.z;
            c.f71 = 1;
            let ghost g0 = *self;
            self.ent.set(i, c);
            proof {
                lemma_wf_same_classes(&g0, self);
            }
        } else if st == 1 {
            let d = self.mc2_rand(i);
            let mut c = self.ent[i];
            c.f44 = (d % 0x30 + 16 - 1) as u16;
            c.f71 = 2;
            let ghost g0 = *self;
            self.ent.set(i, c);
            proof {
                lemma_wf_same_classes(&g0, self);
            }
        } else if st == 2 {
            let mut c = e;
            c.f44 = if c.f44 > 0 { c.f44 - 1 } else { 0 };
            if c.f44 == 0 {
                c.f71 = 3;
            }
            let ghost g0 = *self;
            self.ent.set(i, c);
            proof {
                lemma_wf_same_classes(&g0, self);
            }
        } else if st == 3 {
            if e.f63 & 0x3F == 0 {
                match self.mc2_piece_scan(i, player) {
                    Some(t) => {
                        let mut c = e;
                        c.f71 = 4;
                        c.f28 = t;
                        let ghost g0 = *self;
                        self.ent.set(i, c);
                        proof {
                            lemma_wf_same_classes(&g0, self);
                        }
                    },
                    None => {},
                }
            }
        } else if st == 4 || st == 5 {
            let mut c = e;
            if c.f71 == 4 {
                c.f71 = 5;
                c.f44 = 4;
            }
            c.f44 = c.f44.wrapping_sub(1);
            if c.f44 != 0 {
                c.f54 = c.f54.wrapping_add(160);
            } else {
                c.f71 = 6;
                c.f54 = 0;
            }
            let ghost g0 = *self;
            self.ent.set(i, c);
            proof {
                lemma_wf_same_classes(&g0, self);
            }
        } else if st == 6 {
            let ghost g_in = *self;
            let d = self.mc2_rand(i);
            let r = d % 100;
            let mut c = self.ent[i];
            c.site_z = c.z;
            let part = c.f67;
            let mode: u16 = if r == 0 {
                4
            } else if r <= 5 {
                if part == 1 { 3 } else { 2 }
            } else {
                if part != 1 { 1 } else { 0 }
            };
            c.f30 = mode;
            c.f69 = if mode <= 1 { 6 } else { 1 };
            c.f71 = 7;
            let ghost g0 = *self;
            self.ent.set(i, c);
            proof {
                lemma_wf_same_classes(&g0, self);
            }
            proof {
                assert(fire_pick(&g_in, self, i as int)) by {
                    assert(self.ent@ =~= g_in.ent@.update(i as int, Ent { rand: d, site_z: e.z, f30: mode, f69: if mode <= 1 { 6 } else { 1 }, f71: 7, ..e }));
                }
            }
            fire = true;
        } else if st == 7 || st == 8 {
            fire = true;
        } else if st == 9 {
            let mut c = e;
            c.flags = c.flags | F_REAPED;
            let ghost g0 = *self;
            self.ent.set(i, c);
            proof {
                lemma_wf_same_classes(&g0, self);
                lemma_or_reaped(e.flags);
            }
            return;
        } else if st == 0xA {
            let ghost g0 = *self;
            match self.spawn_mana_ball(e.x, e.y, e.z) {
                Some(sp) => {
                    let ghost g1 = *self;
                    let mut b = self.ent[sp];
                    b.id24 = e.id24;
                    self.ent.set(sp, b);
                    proof {
                        lemma_wf_same_classes(&g1, self);
                        assert(g0.free@.contains(sp));
                        assert(sp != i) by {
                            if sp == i {
                                assert(g0.ent[sp as int].class64 == 0);
                            }
                        }
                    }
                },
                None => {},
            }
            let mut c = self.ent[i];
            c.flags = c.flags | F_REAPED;
            let ghost g2 = *self;
            self.ent.set(i, c);
            proof {
                lemma_wf_same_classes(&g2, self);
                lemma_or_reaped(g2.ent[i as int].flags);
            }
            return;
        }
        let ghost pre_fire = *self;
        if fire {
            self.mc2_piece_fire(i, player);
        }
        let ghost post_fire = *self;
        self.piece_tail(i);
        proof {
            assert(tail_rel(&post_fire, self, i as int));
            if st == 6 {
                assert(fire_pick(old(self), &pre_fire, i as int));
                assert(fire_rel(&pre_fire, &post_fire, i as int, player));
            }
            if st == 7 || st == 8 {
                assert(pre_fire == *old(self));
                assert(fire_rel(old(self), &post_fire, i as int, player));
            }
        }
    }

    /// The balloon's flight toward its target `t` (a sphere or a
    /// castle): fly at it, tether and swallow an owned sphere in reach
    /// (cargo plus claim, full heal, target cleared), deliver the whole
    /// cargo to a castle inside its level × speed ring once low enough;
    /// then the altitude servo (sink by v14 above ground, floor at
    /// ground + v12), on caves with the ceiling walk, and the move.
    #[verifier::spinoff_prover]
    #[verifier::rlimit(100)]
    fn balloon_fly(&mut self, i: usize, t: usize, v12: i16, v14: i16)
        requires
            old(self).wf(),
            old(self).slot_ok(i as int),
            1 <= t < old(self).ent.len(),
            t != i,
            i32::MIN <= old(self).ent[i as int].f140 + old(self).ent[t as int].f140 <= i32::MAX,
        ensures
            final(self).wf(),
            final(self).keeps_world(old(self)),
            final(self).free == old(self).free,
            final(self).ent.len() == old(self).ent.len(),
            final(self).ent[i as int].mail == old(self).ent[i as int].mail,
            final(self).ent[i as int].id24 == old(self).ent[i as int].id24,
            final(self).ent[i as int].act_life == old(self).ent[i as int].act_life || final(self).ent[i as int].act_life
                == old(self).ent[i as int].max_life as i32,
            old(self).t.ceiling.len() == 0 ==> final(self).ent[i as int].z == alt_core_spec(
                final(self).ent[i as int].z,
                old(self).ground_spec(final(self).ent[i as int].x, final(self).ent[i as int].y) as i16,
                v12,
                v14,
            ) || final(self).ent[i as int].z >= wi16(old(self).ground_spec(final(self).ent[i as int].x, final(self).ent[i as int].y) + v12),
            forall|j: int| 0 <= j < old(self).ent.len() && j != i && j != t ==> #[trigger] final(self).ent[j] == old(self).ent[j],
            ({
                let e = old(self).ent[i as int];
                let te = old(self).ent[t as int];
                old(self).t.ceiling.len() == 0 && te.class64 == 10 && te.f144 != e.id24 ==> {
                    &&& final(self).ent[i as int].x == e.x
                    &&& final(self).ent[i as int].y == e.y
                    &&& final(self).ent[i as int].z == alt_core_spec(e.z, old(self).ground_spec(e.x, e.y) as i16, v12, v14)
                    &&& final(self).ent[i as int].f140 == e.f140
                    &&& final(self).ent[t as int] == te
                }
            }),
            ({
                let e = old(self).ent[i as int];
                let te = old(self).ent[t as int];
                let d2 = dist2_spec(e.x, e.y, te.x, te.y);
                old(self).t.ceiling.len() == 0 && te.class64 == 10 && te.f144 == e.id24 && d2 < 1025 * 1025
                    && old(self).overlap_spec(i as int, t as int) ==> {
                    &&& final(self).ent[i as int].f140 == e.f140 + te.f140
                    &&& final(self).ent[i as int].f144 == te.f144
                    &&& final(self).ent[i as int].f146 == 0
                    &&& final(self).ent[t as int].flags & F_REAPED != 0
                }
            }),
            ({
                let e = old(self).ent[i as int];
                let te = old(self).ent[t as int];
                let d2 = dist2_spec(e.x, e.y, te.x, te.y);
                let lvsp = te.f26 as int * e.f126 as int;
                old(self).t.ceiling.len() == 0 && te.class64 == 3 && lvsp >= 0 && d2 < (lvsp + 1) * (lvsp + 1)
                    && e.z <= wi16(old(self).ground_spec(e.x, e.y) + v12) && te.f26 > 0 ==> {
                    &&& final(self).ent[t as int].f140 == te.f140 + e.f140
                    &&& final(self).ent[i as int].f140 == 0
                    &&& final(self).ent[i as int].x == te.x
                    &&& final(self).ent[i as int].y == te.y
                }
            }),
    {
        let e = self.ent[i];
        let te = self.ent[t];
        let mut px = e.x;
        let mut py = e.y;
        let mut pz = e.z;
        let yaw = Self::angle_between(px, py, te.x, te.y);
        let speed = e.f126;
        let mut step = true;
        let mut me = e;
        me.f30 = yaw;
        let mut tt = te;
        if te.class64 == 10 {
            if te.f144 != e.id24 {
                step = false;
            } else {
                let d2 = Self::dist2_sq(px, py, te.x, te.y);
                let d = Self::isqrt(d2 as u32) as i32;
                proof {
                    assert((d2 as u32) as int == d2 as int);
                    lemma_isqrt_le(d2 as int, d as int, 1024);
                }
                let tether: i32 = if self.is_cave() { 2048 } else { 1024 };
                if d > tether {
                    tt.flags = tt.flags & !0x40;
                } else {
                    tt.flags = tt.flags | 0x40;
                    tt.f146 = i as u16;
                    if self.ent_overlap(i, t) {
                        me.f140 = me.f140 + tt.f140;
                        me.f144 = tt.f144;
                        me.f146 = 0;
                        me.act_life = me.max_life as i32;
                        proof {
                            lemma_or_reaped(tt.flags);
                        }
                        tt.flags = tt.flags | F_REAPED;
                    }
                }
                if d <= speed as i32 {
                    px = te.x;
                    py = te.y;
                    step = false;
                }
            }
        } else if te.class64 == 3 {
            let d2 = Self::dist2_sq(px, py, te.x, te.y);
            let d = Self::isqrt(d2 as u32) as i32;
            let lv = te.f26 as i32;
            let sp = speed as i32;
            assert(-0x4000_0000 <= lv * sp <= 0x4000_0000) by (nonlinear_arith)
                requires
                    -0x8000 <= lv <= 0x7FFF,
                    -0x8000 <= sp <= 0x7FFF,
            ;
            proof {
                assert((d2 as u32) as int == d2 as int);
                if lv * sp >= 0 {
                    lemma_isqrt_le(d2 as int, d as int, lv * sp);
                }
            }
            if d <= lv * sp {
                let ground = self.ground_z(px, py) as i16;
                if pz <= ground.wrapping_add(v12) && te.f26 > 0 {
                    px = te.x;
                    py = te.y;
                    tt.f140 = tt.f140 + me.f140;
                    me.f140 = 0;
                    me.f144 = me.id24;
                    me.act_life = me.max_life as i32;
                }
                step = false;
            }
        }
        if step {
            let mut pos = (px, py, pz);
            Self::polar_step(&mut pos, yaw, e.pitch32, speed);
            px = pos.0;
            py = pos.1;
            pz = pos.2;
        }
        let ground = self.ground_z(px, py) as i16;
        let mut z = pz;
        if self.is_cave() {
            let tl = tile((px / 256) as u8, (py / 256) as u8);
            let roof = self.t.angle[tl] & 8 != 0 || self.cave_poke(me.f84 as i32, v12 as i32, px, py);
            let walking = me.flags & 1 != 0;
            let mut transition = false;
            if walking {
                if !roof {
                    me.flags = me.flags & !1;
                    transition = true;
                }
                me.f126 = 96;
            } else {
                if roof {
                    me.flags = me.flags | 1;
                    transition = true;
                }
                me.f126 = 48;
            }
            if me.f71 != 0 {
                me.f71 = me.f71 - 1;
            }
            if transition && me.f71 == 0 {
                self.snd(22, i);
                me.f71 = 32;
            }
            Self::mc2_alt_core(&mut z, ground, v12, v14);
            if me.flags & 1 == 0 {
                let c = (self.ceiling_z(px, py) - me.f84 as i32) as i16;
                if z > c {
                    z = c;
                }
            }
        } else {
            Self::mc2_alt_core(&mut z, ground, v12, v14);
        }
        me.x = px;
        me.y = py;
        me.z = z;
        let ghost g0 = *self;
        self.ent.set(i, me);
        self.ent.set(t, tt);
        proof {
            lemma_wf_same_classes(&g0, self);
        }
    }

    /// The MC2 (3,3) balloon tick: a target slot recycled into anything
    /// but a sphere is dropped (f146 = 0, nothing else); with a live
    /// target the balloon flies (see [`Self::balloon_fly`]) on its
    /// behavior row's altitude columns; then its channel-0 intake
    /// subtracts straight from life (the human's balloon raises the
    /// balloon latch; a lethal hit remembers the killer, a survived one
    /// clears the channel).
    pub fn mc2_balloon_tick(&mut self, i: usize)
        requires
            old(self).wf(),
            old(self).slot_ok(i as int),
            (old(self).ent[i as int].f146 as int) < old(self).ent.len(),
            ROW_BASE + old(self).ent[i as int].row156 < old(self).assets.behavior.len(),
            old(self).ent[i as int].f146 as int != i,
            i32::MIN <= old(self).ent[i as int].f140 + old(self).ent[old(self).ent[i as int].f146 as int].f140 <= i32::MAX,
            i32::MIN <= old(self).ent[i as int].max_life as i32 - (old(self).ent[i as int].mail[0].0 as i32) <= i32::MAX,
            i32::MIN <= old(self).ent[i as int].act_life - (old(self).ent[i as int].mail[0].0 as i32) <= i32::MAX,
        ensures
            final(self).wf(),
            final(self).ent.len() == old(self).ent.len(),
            final(self).t == old(self).t,
            final(self).assets == old(self).assets,
            ({
                let e = old(self).ent[i as int];
                let t = e.f146 as int;
                let stale = t != 0 && old(self).ent[t].class64 == 10 && old(self).ent[t].model65 != 39;
                let row = old(self).assets.behavior[ROW_BASE + e.row156];
                &&& stale ==> final(self).ent@ == old(self).ent@.update(i as int, Ent { f146: 0, ..e })
                &&& !stale && t != 0 && old(self).ent[t].flags & F_REAPED == 0 && old(self).t.ceiling.len() == 0 ==> final(self).ent[i as int].z
                    >= wi16(old(self).ground_spec(final(self).ent[i as int].x, final(self).ent[i as int].y) + row.v_12)
                &&& !stale && final(self).ent[i as int].mail[0].1 == 0 ==> final(self).ent[i as int].act_life >= 0 || e.mail[0].1 == 0
            }),
            ({
                let e = old(self).ent[i as int];
                let t = e.f146 as int;
                let te = old(self).ent[t];
                let row = old(self).assets.behavior[ROW_BASE + e.row156];
                let d2 = dist2_spec(e.x, e.y, te.x, te.y);
                let lvsp = te.f26 as int * e.f126 as int;
                let fly = t != 0 && !(te.class64 == 10 && te.model65 != 39) && te.flags & F_REAPED == 0
                    && old(self).t.ceiling.len() == 0;
                &&& fly && te.class64 == 10 && te.f144 != e.id24 ==> {
                    &&& final(self).ent[i as int].x == e.x
                    &&& final(self).ent[i as int].y == e.y
                    &&& final(self).ent[i as int].z == alt_core_spec(e.z, old(self).ground_spec(e.x, e.y) as i16, row.v_12, row.v_14)
                    &&& final(self).ent[i as int].f140 == e.f140
                    &&& final(self).ent[t] == te
                }
                &&& fly && te.class64 == 10 && te.f144 == e.id24 && d2 < 1025 * 1025 && old(self).overlap_spec(i as int, t) ==> {
                    &&& final(self).ent[i as int].f140 == e.f140 + te.f140
                    &&& final(self).ent[i as int].f144 == te.f144
                    &&& final(self).ent[i as int].f146 == 0
                    &&& final(self).ent[t].flags & F_REAPED != 0
                }
                &&& fly && te.class64 == 3 && lvsp >= 0 && d2 < (lvsp + 1) * (lvsp + 1)
                    && e.z <= wi16(old(self).ground_spec(e.x, e.y) + row.v_12) && te.f26 > 0 ==> {
                    &&& final(self).ent[t].f140 == te.f140 + e.f140
                    &&& final(self).ent[i as int].f140 == 0
                    &&& final(self).ent[i as int].x == te.x
                    &&& final(self).ent[i as int].y == te.y
                }
            }),
            ({
                let e = old(self).ent[i as int];
                let t = e.f146 as int;
                let stale = t != 0 && old(self).ent[t].class64 == 10 && old(self).ent[t].model65 != 39;
                !stale ==> exists|base: i32| intake_rel(e, base, final(self).ent[i as int], old(self).balloon_alert, final(self).balloon_alert)
            }),
    {
        let e = self.ent[i];
        let t = e.f146 as usize;
        let row = self.assets.behavior[ROW_BASE + e.row156 as usize];
        if t != 0 && self.ent[t].class64 == 10 && self.ent[t].model65 != 39 {
            let mut c = e;
            c.f146 = 0;
            let ghost g0 = *self;
            self.ent.set(i, c);
            proof {
                lemma_wf_same_classes(&g0, self);
            }
            return;
        }
        if t != 0 && self.ent[t].flags & F_REAPED == 0 {
            self.balloon_fly(i, t, row.v_12, row.v_14);
            proof {
                let f = self.ent[i as int];
                let g = wi16(old(self).ground_spec(f.x, f.y) + row.v_12);
                if f.z == alt_core_spec(f.z, old(self).ground_spec(f.x, f.y) as i16, row.v_12, row.v_14) {
                    assert(old(self).ground_spec(f.x, f.y) < 8192);
                }
            }
        }
        let c = self.ent[i];
        let ghost base = c.act_life;
        let ghost pre_alert = self.balloon_alert;
        proof {
            assert(c.mail == old(self).ent[i as int].mail);
        }
        if c.act_life >= 0 && c.mail[0].1 != 0 {
            let (amt, src) = c.mail[0];
            let mut m = c;
            m.act_life = m.act_life - amt as i32;
            if m.id24 == PLAYER_TARGET {
                self.balloon_alert = 4;
            }
            if m.act_life < 0 {
                m.f36 = src;
            } else {
                m.mail[0] = (m.mail[0].0, 0);
            }
            let ghost g1 = *self;
            self.ent.set(i, m);
            proof {
                lemma_wf_same_classes(&g1, self);
            }
        }
        proof {
            assert(intake_rel(old(self).ent[i as int], base, self.ent[i as int], old(self).balloon_alert, self.balloon_alert));
        }
    }
}

} // verus!
