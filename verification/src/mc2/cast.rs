//! The MC2 spell column: the projectile creators, the spell book and
//! its XP/level law, the tier selection, the cast gate, the cast
//! expiry and the level-start binding.

use vstd::prelude::*;
use vstd::string::{StrSliceExecFns, StringExecFns};
use crate::pool::{
    lemma_wf_same_classes, Ent, Gen, SpellRow, SubSpell, PLAYER_TARGET, F_REAPED, fresh_ent, w8, wi16, tdiv,
};
use crate::world::{World, LifeState, GameId, PlayerPose, Player, is_castle_of};
use crate::mc2::castle::F_UPGRADE_ARMED;

verus! {

/// Notification lives in ticks: level-up banner and spell-change
/// toast.
pub const NOTIFY_TICKS_LEVELUP: u16 = 200;
pub const NOTIFY_TICKS_SELECT: u16 = 20;

/// The plain-toast ink (red).
pub fn notify_red() -> (c: [u8; 3])
    ensures
        c@ == seq![255u8, 0, 0],
{
    let c = [255u8, 0, 0];
    assert(c@ =~= seq![255u8, 0, 0]);
    c
}

/// The flag bit marking an MC2-column projectile.
pub const F_MC2PROJ: u32 = 0x100_0000;

/// The 26-spell book of one wizard. All arrays are keyed by spell
/// index.
#[derive(Clone, Copy)]
pub struct Mc2Spellbook {
    /// Pool slot of the spell's manifestation, 0 = not learned.
    pub ent: [u16; 26],
    /// Volatile (this-level) XP.
    pub xp_vol: [i32; 26],
    /// Banked (campaign-carried) XP.
    pub xp_bank: [i32; 26],
    /// Derived level 0..2.
    pub levels: [u8; 26],
    /// The selected tier per spell (≤ level).
    pub sel: [u8; 26],
    /// Quick-slot bindings (spell index, −1 = none).
    pub left: i8,
    pub right: i8,
    /// Cycle-ring membership: 0 = none, 1 = left ring, 2 = right ring.
    pub ring: [u8; 26],
}

/// Read-only spell-book snapshot for the pane/HUD.
#[derive(Clone, Copy)]
pub struct Mc2BookView {
    pub owned: [bool; 26],
    pub levels: [u8; 26],
    pub sel: [u8; 26],
    /// Effective XP (banked + volatile) per spell.
    pub xp: [i32; 26],
    /// The per-tier XP thresholds.
    pub xpos: [[i32; 3]; 26],
    /// The selected tier's cast cost.
    pub cost: [u32; 26],
    /// Every tier's cast cost.
    pub cost_tier: [[u32; 3]; 26],
    /// Cast in progress.
    pub armed: [bool; 26],
    /// Expiry-blink eligibility: a long-runner inside its last 31
    /// ticks.
    pub expiring: [bool; 26],
    /// Per tier: the tier's castle-pool prerequisite is zero or the
    /// own castle's stored mana covers it.
    pub castable: [[bool; 3]; 26],
    pub left: i8,
    pub right: i8,
    pub ring: [u8; 26],
}

/// One projectile arm: the class-9 subtype to spawn, the impact
/// (class, model), whether the tier's charge byte rides along.
#[derive(Clone, Copy)]
pub struct DispatchArm {
    pub subtype: u8,
    pub impact: (u8, u8),
    pub charge: bool,
}

/// Class-9 creator parameters: (subtype, action, speed, maxLife,
/// behavior row, sprite).
pub const CREATORS: [(u8, u8, i16, u32, u8, u16); 19] = [
    (0, 0, 384, 21, 64, 340),
    (1, 1, 384, 10, 61, 209),
    (2, 2, 384, 21, 60, 211),
    (3, 3, 384, 21, 60, 76),
    (4, 4, 384, 21, 60, 210),
    (5, 5, 384, 21, 60, 211),
    (8, 8, 384, 21, 63, 214),
    (9, 9, 384, 9, 63, 216),
    (12, 12, 384, 5, 60, 216),
    (17, 18, 384, 10, 61, 209),
    (22, 23, 384, 21, 60, 211),
    (23, 24, 384, 21, 60, 211),
    (24, 25, 384, 20, 60, 281),
    (25, 26, 384, 10, 61, 321),
    (26, 27, 384, 21, 60, 320),
    (28, 29, 384, 21, 64, 340),
    (29, 30, 384, 10, 60, 66),
    (30, 31, 384, 21, 60, 211),
    (10, 10, 384, 21, 60, 18),
];

/// The first creator row for `subtype`.
pub open spec fn creator_spec(subtype: u8) -> Option<(u8, u8, i16, u32, u8, u16)> {
    if exists|k: int| 0 <= k < 19 && (#[trigger] CREATORS@[k]).0 == subtype {
        let k = choose|k: int|
            0 <= k < 19 && (#[trigger] CREATORS@[k]).0 == subtype && forall|q: int|
                0 <= q < k ==> (#[trigger] CREATORS@[q]).0 != subtype;
        Some(CREATORS@[k])
    } else {
        None
    }
}

/// The sprite-ext pair a sprite row resolves to.
pub open spec fn ext_of(g: &Gen, idx: u16) -> (u16, u16) {
    if (idx as int) < g.assets.mc2_sprite_ext.len() {
        g.assets.mc2_sprite_ext[idx as int]
    } else {
        (0u16, 0u16)
    }
}

/// The record a class-9 creator writes for `subtype` into fresh slot
/// `i` at (x, y, z).
pub open spec fn cast_proj_spec(g: &Gen, i: int, c: (u8, u8, i16, u32, u8, u16), x: u16, y: u16, z: i16) -> Ent {
    let f = fresh_ent(i);
    let (s6, r8) = ext_of(g, c.5);
    let base = Ent {
        class64: 9,
        model65: c.0,
        tick70: c.1,
        f126: c.2,
        speed128: c.2,
        f140: 50,
        max_life: c.3,
        act_life: c.3 as i32,
        row156: c.4,
        flags: (f.flags & !8u32) | F_MC2PROJ,
        f66: if c.0 == 1 { 10 } else { f.f66 },
        x,
        y,
        z,
        type86: c.5,
        frame88: 0,
        f78: r8 / 2,
        f80: s6 / 2,
        f82: s6 / 2,
        f84: r8 / 2,
        ..f
    };
    if c.0 == 1 {
        Ent { f80: w16_mul2(s6 / 2), f82: w16_mul2(s6 / 2), f84: (5 * (r8 / 2) / 2) as u16, ..base }
    } else if c.0 == 17 {
        Ent { f80: w16_mul2(s6 / 2), f82: w16_mul2(s6 / 2), f84: (2 * (r8 / 2)) as u16, ..base }
    } else {
        base
    }
}

/// `2·v` wrapped to 16 bits.
pub open spec fn w16_mul2(v: u16) -> u16 {
    ((2 * v as int) % 0x10000) as u16
}

impl Gen {
    /// The shared class-9 creator body: fresh record, class 9 with the
    /// creator row's action/speed/life/row, mana 50, the MC2-projectile
    /// flag, linked at (x, y, z), life refilled, sprite set; the
    /// possession pair re-boxes. None for an unknown subtype or a full
    /// pool.
    pub fn mc2_spawn_cast_proj(&mut self, subtype: u8, x: u16, y: u16, z: i16) -> (r: Option<usize>)
        requires
            old(self).wf(),
            subtype == 1 ==> 5 * (ext_of(old(self), 209).1 as int / 2) <= 0xFFFF,
        ensures
            final(self).wf(),
            final(self).keeps_world(old(self)),
            final(self).sounds == old(self).sounds,
            match r {
                Some(i) => {
                    &&& creator_spec(subtype).is_some()
                    &&& old(self).free.len() > 0
                    &&& i == old(self).free@.last()
                    &&& final(self).free@ == old(self).free@.drop_last()
                    &&& final(self).slot_ok(i as int)
                    &&& final(self).same_except(old(self), i as int, i as int)
                    &&& final(self).ent[i as int] == cast_proj_spec(
                        old(self),
                        i as int,
                        creator_spec(subtype).unwrap(),
                        x,
                        y,
                        z,
                    )
                },
                None => {
                    &&& (creator_spec(subtype).is_none() || old(self).free.len() == 0)
                    &&& final(self).free@ == old(self).free@
                    &&& final(self).ent == old(self).ent
                },
            },
    {
        let mut k: usize = 0;
        while k < 19 && CREATORS[k].0 != subtype
            invariant
                k <= 19,
                forall|q: int| 0 <= q < k ==> (#[trigger] CREATORS@[q]).0 != subtype,
            decreases 19 - k,
        {
            k = k + 1;
        }
        if k == 19 {
            return None;
        }
        let c = CREATORS[k];
        assert(creator_spec(subtype) == Some(c)) by {
            let w = choose|q: int|
                0 <= q < 19 && (#[trigger] CREATORS@[q]).0 == subtype && forall|p: int|
                    0 <= p < q ==> (#[trigger] CREATORS@[p]).0 != subtype;
            assert(CREATORS@[k as int].0 == subtype);
            if w < k {
            } else if w > k {
                assert(CREATORS@[k as int].0 != subtype);
            }
        }
        let (_, action, speed, life, row, sprite) = c;
        let i = match self.new_event() {
            Some(i) => i,
            None => return None,
        };
        self.ent[i].class64 = 9;
        self.ent[i].model65 = subtype;
        self.ent[i].tick70 = action;
        self.ent[i].f126 = speed;
        self.ent[i].speed128 = speed;
        self.ent[i].f140 = 50;
        self.ent[i].max_life = life;
        self.ent[i].row156 = row;
        self.ent[i].flags = (self.ent[i].flags & !8u32) | F_MC2PROJ;
        if subtype == 1 {
            self.ent[i].f66 = 10;
        }
        self.link(i, x, y, z);
        self.refill_life(i);
        self.mc2_set_sprite(i, sprite);
        if subtype == 1 || subtype == 17 {
            let shift = self.ent[i].f80.wrapping_mul(2);
            let f84 = self.ent[i].f84;
            let fov = if subtype == 1 {
                5 * f84 / 2
            } else {
                2 * f84
            };
            self.mc2_shift_rot(i, shift, fov);
        }
        Some(i)
    }

    /// The spell-XP award at a Fool's-Mana trap's spend points: one XP
    /// of spell 22 to the trap's owner when that owner is the human.
    pub fn mc2_fools_award(&mut self, i: usize)
        requires
            i < old(self).ent.len(),
        ensures
            final(self).mc2_cast_xp@ == (if old(self).ent[i as int].id24 == PLAYER_TARGET {
                old(self).mc2_cast_xp@.push((PLAYER_TARGET, 22u8, 1i32))
            } else {
                old(self).mc2_cast_xp@
            }),
            final(self).ent == old(self).ent,
            final(self).free == old(self).free,
            final(self).sounds == old(self).sounds,
            final(self).t == old(self).t,
            final(self).assets == old(self).assets,
            final(self).mc2_castle_research == old(self).mc2_castle_research,
    {
        let owner = self.ent[i].id24;
        if owner == PLAYER_TARGET {
            self.mc2_cast_xp.push((owner, 22, 1));
        }
    }

    /// The class-15 spell token ctor (no jar art): a hidden token for
    /// `spell` at (x, y, z) in its first pickup state.
    pub fn mc2_spawn_spell_token(&mut self, spell: u8, x: u16, y: u16, z: i16) -> (r: Option<usize>)
        requires
            old(self).wf(),
        ensures
            final(self).wf(),
            final(self).keeps_world(old(self)),
            final(self).sounds == old(self).sounds,
            match r {
                Some(i) => {
                    &&& old(self).free.len() > 0
                    &&& i == old(self).free@.last()
                    &&& final(self).free@ == old(self).free@.drop_last()
                    &&& final(self).slot_ok(i as int)
                    &&& final(self).same_except(old(self), i as int, i as int)
                    &&& final(self).ent[i as int] == (Ent {
                        class64: 15,
                        model65: spell,
                        tick70: w8(3 * spell as int + 1),
                        x,
                        y,
                        z,
                        ..fresh_ent(i as int)
                    })
                },
                None => {
                    &&& old(self).free.len() == 0
                    &&& final(self).free@ == old(self).free@
                    &&& final(self).ent == old(self).ent
                },
            },
    {
        let i = match self.new_event() {
            Some(i) => i,
            None => return None,
        };
        self.ent[i].class64 = 15;
        self.ent[i].model65 = spell;
        self.ent[i].tick70 = spell.wrapping_mul(3).wrapping_add(1);
        self.link(i, x, y, z);
        Some(i)
    }
}

impl Mc2Spellbook {
    /// Is the book untouched (equal to the default book)?
    pub open spec fn is_pristine_spec(&self) -> bool {
        &&& forall|s: int| 0 <= s < 26 ==> #[trigger] self.ent[s] == 0u16
        &&& forall|s: int| 0 <= s < 26 ==> #[trigger] self.xp_vol[s] == 0i32
        &&& forall|s: int| 0 <= s < 26 ==> #[trigger] self.xp_bank[s] == 0i32
        &&& forall|s: int| 0 <= s < 26 ==> #[trigger] self.levels[s] == 0u8
        &&& forall|s: int| 0 <= s < 26 ==> #[trigger] self.sel[s] == 0u8
        &&& self.left == -1
        &&& self.right == -1
        &&& forall|s: int| 0 <= s < 26 ==> #[trigger] self.ring[s] == 0u8
    }

    /// Hash-transparency gate: is the book never touched?
    pub fn is_pristine(&self) -> (r: bool)
        ensures
            r == self.is_pristine_spec(),
    {
        let mut s: usize = 0;
        while s < 26
            invariant
                s <= 26,
                forall|k: int| 0 <= k < s ==> #[trigger] self.ent[k] == 0u16,
                forall|k: int| 0 <= k < s ==> #[trigger] self.xp_vol[k] == 0i32,
                forall|k: int| 0 <= k < s ==> #[trigger] self.xp_bank[k] == 0i32,
                forall|k: int| 0 <= k < s ==> #[trigger] self.levels[k] == 0u8,
                forall|k: int| 0 <= k < s ==> #[trigger] self.sel[k] == 0u8,
                forall|k: int| 0 <= k < s ==> #[trigger] self.ring[k] == 0u8,
            decreases 26 - s,
        {
            if self.ent[s] != 0 || self.xp_vol[s] != 0 || self.xp_bank[s] != 0 || self.levels[s]
                != 0 || self.sel[s] != 0 || self.ring[s] != 0 {
                return false;
            }
            s = s + 1;
        }
        self.left == -1 && self.right == -1
    }
}

impl Default for Mc2Spellbook {
    fn default() -> (b: Self)
        ensures
            b.is_pristine_spec(),
    {
        Mc2Spellbook {
            ent: [0; 26],
            xp_vol: [0; 26],
            xp_bank: [0; 26],
            levels: [0; 26],
            sel: [0; 26],
            left: -1,
            right: -1,
            ring: [0; 26],
        }
    }
}

/// The castle upgrade-cost ladder by castle level.
pub const CASTLE_COST_LADDER: [i64; 8] = [
    1000,
    10000,
    20000,
    40000,
    80000,
    160000,
    320000,
    300_000_000,
];

/// `t` capped at 2 (the last tier).
pub open spec fn tier_ix(t: int) -> int {
    if t > 2 {
        2
    } else {
        t
    }
}

/// `v` clamped to [lo, hi].
pub open spec fn clampi(v: int, lo: int, hi: int) -> int {
    if v < lo {
        lo
    } else if v > hi {
        hi
    } else {
        v
    }
}

/// Replace every non-overlapping "%s" of `s`, left to right, by `rep`.
pub open spec fn replace_pct_s(s: Seq<char>, rep: Seq<char>) -> Seq<char>
    decreases s.len(),
{
    if s.len() == 0 {
        s
    } else if s.len() >= 2 && s[0] == '%' && s[1] == 's' {
        rep + replace_pct_s(s.skip(2), rep)
    } else {
        seq![s[0]] + replace_pct_s(s.skip(1), rep)
    }
}

/// The XP threshold of tier `v` (capped at the last tier).
pub fn tier_threshold(row: &SpellRow, v: i32) -> (x: i32)
    requires
        v >= 0,
    ensures
        x == row.tiers[tier_ix(v as int)].xpos1,
{
    let ti: usize = if v > 2 { 2 } else { v as usize };
    row.tiers[ti].xpos1
}

/// The tier scan of the level law: from tier `v` down, the first tier
/// whose XP threshold `xp` reaches (−1 when none does).
pub open spec fn tier_scan(row: SpellRow, xp: int, v: int) -> int
    decreases v + 1,
{
    if v < 0 {
        v
    } else if xp >= row.tiers[tier_ix(v)].xpos1 {
        v
    } else {
        tier_scan(row, xp, v - 1)
    }
}

/// The spell level `xp` earns on `row`: the highest tier below the
/// row's tier count whose threshold `xp` reaches; 0 when none.
pub open spec fn level_for(row: SpellRow, xp: int) -> u8 {
    let v = tier_scan(row, xp, row.byte_0 as int - 1);
    if v < 0 {
        0
    } else {
        v as u8
    }
}

/// A tier scan lands on a tier the XP reaches, and no higher tier
/// within the scan reaches it.
proof fn lemma_tier_scan(row: SpellRow, xp: int, v: int)
    ensures
        tier_scan(row, xp, v) <= v,
        tier_scan(row, xp, v) >= 0 ==> xp >= row.tiers[tier_ix(tier_scan(row, xp, v))].xpos1,
        tier_scan(row, xp, v) < 0 ==> tier_scan(row, xp, v) == -1 || v < -1,
        forall|u: int| tier_scan(row, xp, v) < u <= v ==> xp < #[trigger] row.tiers[tier_ix(u)].xpos1,
    decreases v + 1,
{
    if v >= 0 && xp < row.tiers[tier_ix(v)].xpos1 {
        lemma_tier_scan(row, xp, v - 1);
    }
}

/// The spell level law: the level of a spell is a tier its effective
/// XP reaches (or 0), and no higher tier of the row is reached.
pub proof fn law_level_is_highest_reached_tier(row: SpellRow, xp: int)
    requires
        row.byte_0 <= 3,
    ensures
        (level_for(row, xp) as int) < (if row.byte_0 == 0 { 1 } else { row.byte_0 as int }),
        level_for(row, xp) > 0 ==> xp >= row.tiers[level_for(row, xp) as int].xpos1,
        forall|u: int|
            level_for(row, xp) < u < row.byte_0 ==> xp < #[trigger] row.tiers[tier_ix(u)].xpos1,
{
    lemma_tier_scan(row, xp, row.byte_0 as int - 1);
}

/// Is the effective XP of `spell` representable after the castle XP
/// clamp?
pub open spec fn xp_ok(b: Mc2Spellbook, spell: int) -> bool {
    xp_fits(b.xp_vol[spell] as int, b.xp_bank[spell] as int, spell)
}

/// Is the effective XP of volatile `vol` plus banked `bank` of
/// `spell` representable after the castle XP clamp?
pub open spec fn xp_fits(vol: int, bank: int, spell: int) -> bool {
    let v = if spell == 2 && vol > 7 {
        7
    } else {
        vol
    };
    i32::MIN <= v + bank <= i32::MAX
}

impl World {
    /// The cast cost of `spell` at `tier`: the tier's mana cost; the
    /// castle spell (2) instead takes the upgrade ladder rung at the
    /// own castle's level times the tier multiplier (×1.25, ×1.5; none
    /// at level 7), or the base cost with no own castle. 0 for a spell
    /// without a row.
    pub open spec fn mana_cost_spec(&self, spell: int, tier: int) -> int {
        if spell < 0 || spell >= self.g.assets.spells.len() {
            0
        } else {
            let base = self.g.assets.spells[spell].tiers[tier_ix(tier)].mana_cost as int;
            if spell == 2 {
                match self.castle_of_spec(PLAYER_TARGET) {
                    None => base,
                    Some(c) => {
                        let lvl = clampi(self.g.ent[c as int].f26 as int, 0, 7);
                        let rung = CASTLE_COST_LADDER@[lvl] as int;
                        let r = if lvl < 7 && tier_ix(tier) == 1 {
                            rung * 320 / 256
                        } else if lvl < 7 && tier_ix(tier) == 2 {
                            rung * 384 / 256
                        } else {
                            rung
                        };
                        clampi(r, 0, i32::MAX as int)
                    },
                }
            } else {
                base
            }
        }
    }

    /// The cast cost of `spell` at `tier` (see [`Self::mana_cost_spec`]).
    pub fn mc2_spell_mana_cost(&self, spell: usize, tier: usize) -> (r: i32)
        requires
            self.wf(),
        ensures
            r == self.mana_cost_spec(spell as int, tier as int),
    {
        if spell >= self.g.assets.spells.len() {
            return 0;
        }
        let row = self.g.assets.spells[spell];
        let ti = if tier > 2 { 2 } else { tier };
        let base = row.tiers[ti].mana_cost;
        if spell == 2 {
            let c = match self.player_castle() {
                Some(c) => c,
                None => return base,
            };
            let f26 = self.g.ent[c].f26;
            let lvl: usize = if f26 < 0 { 0 } else if f26 > 7 { 7 } else { f26 as usize };
            proof {
                assert(CASTLE_COST_LADDER@ =~= seq![1000i64, 10000, 20000, 40000, 80000, 160000, 320000, 300_000_000]);
            }
            let mut result = CASTLE_COST_LADDER[lvl];
            if lvl < 7 {
                if ti == 1 {
                    result = result * 320 / 256;
                } else if ti == 2 {
                    result = result * 384 / 256;
                }
            }
            let clamped: i64 = if result < 0 { 0 } else if result > 0x7FFF_FFFF { 0x7FFF_FFFF } else { result };
            return clamped as i32;
        }
        base
    }

    /// The language string at `idx` (empty when absent).
    pub open spec fn lang_spec(&self, idx: int) -> Seq<char> {
        if 0 <= idx < self.lang.len() {
            self.lang[idx]@
        } else {
            Seq::empty()
        }
    }

    /// The language string at `idx` (empty when absent).
    pub fn lang_text(&self, idx: i16) -> (r: String)
        ensures
            r@ == self.lang_spec(idx as int),
    {
        if idx >= 0 && (idx as usize) < self.lang.len() {
            self.lang[idx as usize].clone()
        } else {
            String::new()
        }
    }

    /// The per-tier spell name (the tier's hint-text string); empty
    /// when the spell has no row.
    pub open spec fn spell_name_spec(&self, spell: int, tier: int) -> Seq<char> {
        if 0 <= spell < self.g.assets.spells.len() {
            self.lang_spec(self.g.assets.spells[spell].tiers[tier_ix(tier)].hint_text as int)
        } else {
            Seq::empty()
        }
    }

    /// The per-tier spell name shown on the pane hover and the
    /// spell-change toast: the tier's hint-text string, so each tier
    /// reads as its own name. Empty when the spell data is absent.
    pub fn mc2_spell_name(&self, spell: usize, tier: usize) -> (r: String)
        ensures
            r@ == self.spell_name_spec(spell as int, tier as int),
    {
        if spell < self.g.assets.spells.len() {
            let ti = if tier > 2 { 2 } else { tier };
            self.lang_text(self.g.assets.spells[spell].tiers[ti].hint_text)
        } else {
            String::new()
        }
    }

    /// The level-up banner text: string 159 with every "%s" replaced
    /// by the spell's upper-case base name (string 160 + spell).
    pub fn mc2_relevel_message(&self, spell: usize) -> (r: String)
        requires
            160 + (spell as i16) <= 0x7FFF,
        ensures
            r@ == replace_pct_s(self.lang_spec(159), self.lang_spec(160 + (spell as i16) as int)),
    {
        let tmpl = self.lang_text(159);
        let name = self.lang_text(160 + spell as i16);
        replace_all_pct_s(tmpl.as_str(), name.as_str())
    }
}

/// Replace every "%s" of `s` by `rep`.
pub fn replace_all_pct_s(s: &str, rep: &str) -> (r: String)
    ensures
        r@ == replace_pct_s(s@, rep@),
{
    let n = s.unicode_len();
    let mut out = String::new();
    let mut i: usize = 0;
    assert(s@.skip(0) =~= s@);
    assert(out@ + replace_pct_s(s@, rep@) =~= replace_pct_s(s@, rep@));
    while i < n
        invariant
            n == s@.len(),
            i <= n,
            replace_pct_s(s@, rep@) == out@ + replace_pct_s(s@.skip(i as int), rep@),
        decreases n - i,
    {
        let c = s.get_char(i);
        let ghost rest = s@.skip(i as int);
        let ghost out0 = out@;
        if c == '%' && i + 1 < n && s.get_char(i + 1) == 's' {
            assert(rest.skip(2) =~= s@.skip(i + 2));
            assert(replace_pct_s(rest, rep@) == rep@ + replace_pct_s(rest.skip(2), rep@));
            out.append(rep);
            i = i + 2;
            assert(out0 + (rep@ + replace_pct_s(s@.skip(i as int), rep@)) =~= out@ + replace_pct_s(s@.skip(i as int), rep@));
        } else {
            assert(rest.skip(1) =~= s@.skip(i + 1));
            assert(replace_pct_s(rest, rep@) == seq![rest[0]] + replace_pct_s(rest.skip(1), rep@));
            let one = s.substring_char(i, i + 1);
            assert(one@ =~= seq![rest[0]]);
            out.append(one);
            i = i + 1;
            assert(out0 + (seq![rest[0]] + replace_pct_s(s@.skip(i as int), rep@)) =~= out@ + replace_pct_s(s@.skip(i as int), rep@));
        }
    }
    assert(s@.skip(n as int) =~= Seq::<char>::empty());
    assert(out@ + Seq::<char>::empty() =~= out@);
    out
}

impl World {
    /// What `SetSpell` makes of manifestation record `e` at `tier`
    /// (`self` is the world before the write): mid-cast the change is
    /// deferred into f44 = tier + 1; otherwise the tier's row is wired
    /// in — live tier, payload, duration, cadence flag, upkeep, full
    /// cost and per-tick cost (upkeep 0 and 1 mana per tick under the
    /// all-spells instrument).
    pub open spec fn set_spell_spec(&self, e: Ent, tier: u8) -> Ent {
        let spell = e.model65 as int;
        if spell >= self.g.assets.spells.len() {
            e
        } else {
            let row = self.g.assets.spells[spell];
            let count = if row.byte_0 == 0 {
                1
            } else {
                row.byte_0 as int
            };
            let t = if tier as int > count - 1 {
                count - 1
            } else {
                tier as int
            };
            if e.f26 > 0 {
                Ent { f44: (t + 1) as u16, ..e }
            } else {
                let sub = row.tiers[t];
                let cost = self.mana_cost_spec(spell, t);
                let f28 = (clampi(sub.word_0x18 as int, 0, i32::MAX as int) % 0x10000) as u16;
                let f140 = if f28 != 0 {
                    tdiv(cost, f28 as int)
                } else {
                    cost
                };
                let wired = Ent {
                    f71: t as u8,
                    f30: clampi(sub.sub_spell as int, 0, 0xFFFF) as u16,
                    f28,
                    f59: if sub.font_type & 1 == 0 {
                        1u8
                    } else {
                        0u8
                    },
                    f136: sub.max_mana_limit,
                    max_life: clampi(cost, 0, i32::MAX as int) as u32,
                    f140: f140 as i32,
                    ..e
                };
                if self.dev_spells {
                    Ent { f136: 0, f140: 1, ..wired }
                } else {
                    wired
                }
            }
        }
    }

    /// `SetSpell`: wire the tier's SPELLS row into manifestation `m`
    /// (see [`Self::set_spell_spec`]).
    pub fn mc2_set_spell(&mut self, m: usize, tier: u8)
        requires
            old(self).wf(),
            m < old(self).g.ent.len(),
        ensures
            final(self).wf(),
            final(self).g.ent@ == old(self).g.ent@.update(
                m as int,
                old(self).set_spell_spec(old(self).g.ent[m as int], tier),
            ),
            final(self).g.free == old(self).g.free,
            final(self).g.sounds == old(self).g.sounds,
            final(self).g.keeps_world(&old(self).g),
            final(self).mc2_book == old(self).mc2_book,
            final(self).player == old(self).player,
            final(self).notification == old(self).notification,
            final(self).entities_dirty == old(self).entities_dirty,
            final(self).mc2_duel == old(self).mc2_duel,
            final(self).pending_speed_zero == old(self).pending_speed_zero,
            final(self).keeps_rest(old(self)),
    {
        let e = self.g.ent[m];
        let r = self.set_spell_value(e, tier);
        self.g.ent.set(m, r);
    }

    /// The record [`Self::set_spell_spec`] describes.
    fn set_spell_value(&self, e: Ent, tier: u8) -> (r: Ent)
        requires
            self.wf(),
        ensures
            r == self.set_spell_spec(e, tier),
    {
        let spell = e.model65 as usize;
        if spell >= self.g.assets.spells.len() {
            return e;
        }
        let row = self.g.assets.spells[spell];
        let count: i16 = if row.byte_0 == 0 { 1 } else { row.byte_0 as i16 };
        let t: usize = if (tier as i16) > count - 1 { (count - 1) as usize } else { tier as usize };
        if e.f26 > 0 {
            return Ent { f44: (t + 1) as u16, ..e };
        }
        let sub = row.tiers[t];
        let cost = self.mc2_spell_mana_cost(spell, t);
        let w18: i32 = if sub.word_0x18 < 0 { 0 } else { sub.word_0x18 };
        let f28 = (w18 % 0x10000) as u16;
        let f140: i32 = if f28 != 0 { cost / f28 as i32 } else { cost };
        let f30: u16 = if sub.sub_spell < 0 { 0 } else if sub.sub_spell > 0xFFFF { 0xFFFF } else { sub.sub_spell as u16 };
        let wired = Ent {
            f71: t as u8,
            f30,
            f28,
            f59: if sub.font_type & 1 == 0 { 1 } else { 0 },
            f136: sub.max_mana_limit,
            max_life: if cost < 0 { 0 } else { cost as u32 },
            f140,
            ..e
        };
        if self.dev_spells {
            Ent { f136: 0, f140: 1, ..wired }
        } else {
            wired
        }
    }

    /// The XP level law for `spell` (`sub_6D9C0`): clamp the castle
    /// spell's volatile XP at 7, derive the level from the effective
    /// XP (see [`level_for`]), announce a changed level (message 159
    /// + sound 61) when asked and the spell is owned (Cave-In only on
    /// caves), cap the selected tier at the level (at the tier count
    /// under the all-spells instrument), and optionally bank the XP
    /// capped at tier 2's threshold.
    #[verifier::spinoff_prover]
    #[verifier::rlimit(40)]
    pub fn mc2_relevel(&mut self, spell: usize, bank: bool, notify: bool)
        requires
            old(self).wf(),
            spell < 26,
            xp_ok(old(self).mc2_book, spell as int),
        ensures
            final(self).wf(),
            final(self).g.ent == old(self).g.ent,
            final(self).g.free == old(self).g.free,
            final(self).g.keeps_world(&old(self).g),
            final(self).player == old(self).player,
            final(self).entities_dirty == old(self).entities_dirty,
            final(self).mc2_duel == old(self).mc2_duel,
            final(self).pending_speed_zero == old(self).pending_speed_zero,
            final(self).keeps_rest(old(self)),
            final(self).mc2_book.ent == old(self).mc2_book.ent,
            final(self).mc2_book.left == old(self).mc2_book.left,
            final(self).mc2_book.right == old(self).mc2_book.right,
            final(self).mc2_book.ring == old(self).mc2_book.ring,
            spell >= old(self).g.assets.spells.len() ==> {
                &&& final(self).mc2_book == old(self).mc2_book
                &&& final(self).notification == old(self).notification
                &&& final(self).g.sounds == old(self).g.sounds
            },
            spell < old(self).g.assets.spells.len() ==> ({
                let o = old(self).mc2_book;
                let f = final(self).mc2_book;
                let row = old(self).g.assets.spells[spell as int];
                let vol = if spell == 2 && o.xp_vol[2] > 7 {
                    7
                } else {
                    o.xp_vol[spell as int] as int
                };
                let xp = vol + o.xp_bank[spell as int];
                let lvl = level_for(row, xp);
                let v5 = o.ent[spell as int] != 0 && (old(self).g.t.ceiling.len() > 0 || spell != 25);
                let cap = if old(self).dev_spells {
                    clampi(row.byte_0 as int - 1, 0, 255)
                } else {
                    lvl as int
                };
                let announce = lvl != o.levels[spell as int] && v5 && notify;
                &&& forall|k: int|
                    0 <= k < 26 ==> #[trigger] f.xp_vol[k] == (if k == 2 && o.xp_vol[2] > 7 {
                        7i32
                    } else {
                        o.xp_vol[k]
                    })
                &&& f.levels[spell as int] == lvl
                &&& forall|k: int| 0 <= k < 26 && k != spell ==> #[trigger] f.levels[k] == o.levels[k]
                &&& f.sel[spell as int] == (if o.sel[spell as int] as int > cap {
                    cap as u8
                } else {
                    o.sel[spell as int]
                })
                &&& forall|k: int| 0 <= k < 26 && k != spell ==> #[trigger] f.sel[k] == o.sel[k]
                &&& f.xp_bank[spell as int] == (if v5 && bank {
                    (if xp > row.tiers[2].xpos1 {
                        row.tiers[2].xpos1 as int
                    } else {
                        xp
                    }) as i32
                } else {
                    o.xp_bank[spell as int]
                })
                &&& forall|k: int| 0 <= k < 26 && k != spell ==> #[trigger] f.xp_bank[k] == o.xp_bank[k]
                &&& announce ==> {
                    &&& final(self).notification is Some
                    &&& final(self).notification->0.text@ == replace_pct_s(
                        old(self).lang_spec(159),
                        old(self).lang_spec(160 + spell),
                    )
                    &&& final(self).notification->0.ticks == NOTIFY_TICKS_LEVELUP
                    &&& final(self).notification->0.color@ == seq![255u8, 0, 0]
                    &&& final(self).g.sounds@ == old(self).g.sounds@.push((61u8, PLAYER_TARGET))
                }
                &&& !announce ==> {
                    &&& final(self).notification == old(self).notification
                    &&& final(self).g.sounds == old(self).g.sounds
                }
            }),
    {
        if spell >= self.g.assets.spells.len() {
            return;
        }
        let row = self.g.assets.spells[spell];
        let owned = self.mc2_book.ent[spell] != 0;
        let v5 = owned && (self.g.is_cave() || spell != 25);
        if self.mc2_book.xp_vol[2] > 7 {
            self.mc2_book.xp_vol[2] = 7;
        }
        let xp = self.mc2_book.xp_vol[spell] + self.mc2_book.xp_bank[spell];
        let mut v6: i32 = row.byte_0 as i32 - 1;
        while v6 >= 0 && xp < tier_threshold(&row, v6)
            invariant
                -1 <= v6 < row.byte_0,
                row.byte_0 <= 3,
                tier_scan(row, xp as int, row.byte_0 as int - 1) == tier_scan(row, xp as int, v6 as int),
            decreases v6 + 1,
        {
            v6 = v6 - 1;
        }
        let lvl: u8 = if v6 < 0 { 0 } else { v6 as u8 };
        assert(lvl == level_for(row, xp as int));
        if lvl != self.mc2_book.levels[spell] {
            self.mc2_book.levels[spell] = lvl;
            if v5 && notify {
                let msg = self.mc2_relevel_message(spell);
                self.set_notification(msg, NOTIFY_TICKS_LEVELUP, notify_red());
                self.g.snd_player(61);
            }
        }
        let sel_cap: u8 = if self.dev_spells {
            let c = row.byte_0 as i16 - 1;
            if c < 0 { 0 } else { c as u8 }
        } else {
            self.mc2_book.levels[spell]
        };
        if self.mc2_book.sel[spell] > sel_cap {
            self.mc2_book.sel[spell] = sel_cap;
        }
        if v5 && bank {
            let cap = row.tiers[2].xpos1;
            self.mc2_book.xp_bank[spell] = if xp > cap { cap } else { xp };
        }
    }

    /// The spell-XP award (`sub_6D8B0`): `amount` onto the volatile XP
    /// of the human's spell while he is alive (rival owners and
    /// out-of-range spells are no-ops); the castle spell re-syncs its
    /// manifestation's tier; the level re-derives (with announcement,
    /// without banking).
    pub fn mc2_award_xp(&mut self, owner: u16, spell: usize, amount: i32)
        requires
            old(self).wf(),
            spell < 26 && owner == PLAYER_TARGET && old(self).player.state == LifeState::Alive ==> {
                &&& i32::MIN <= old(self).mc2_book.xp_vol[spell as int] + amount <= i32::MAX
                &&& xp_fits(
                    old(self).mc2_book.xp_vol[spell as int] + amount,
                    old(self).mc2_book.xp_bank[spell as int] as int,
                    spell as int,
                )
            },
        ensures
            final(self).wf(),
            final(self).player == old(self).player,
            final(self).keeps_rest(old(self)),
            !(spell < 26 && owner == PLAYER_TARGET && old(self).player.state == LifeState::Alive)
                ==> {
                &&& final(self).mc2_book == old(self).mc2_book
                &&& final(self).g == old(self).g
                &&& final(self).notification == old(self).notification
            },
            spell != 2 ==> final(self).g.ent == old(self).g.ent,
            final(self).g.free == old(self).g.free,
            final(self).g.keeps_world(&old(self).g),
            final(self).entities_dirty == old(self).entities_dirty,
            final(self).mc2_duel == old(self).mc2_duel,
            final(self).pending_speed_zero == old(self).pending_speed_zero,
            spell < 26 && owner == PLAYER_TARGET && old(self).player.state == LifeState::Alive
                ==> final(self).mc2_book.xp_vol[spell as int] as int == (if spell == 2 && old(
                self,
            ).mc2_book.xp_vol[2] + amount > 7 && spell < old(self).g.assets.spells.len() {
                7
            } else {
                old(self).mc2_book.xp_vol[spell as int] + amount
            }),
    {
        if spell >= 26 {
            return;
        }
        if owner != PLAYER_TARGET {
            return;
        }
        if self.player.state != LifeState::Alive {
            return;
        }
        self.mc2_book.xp_vol[spell] = self.mc2_book.xp_vol[spell] + amount;
        if spell == 2 {
            let m = self.mc2_book.ent[2] as usize;
            if m != 0 {
                let t = self.mc2_book.sel[2];
                self.mc2_set_spell(m, t);
            }
        }
        self.mc2_relevel(spell, false, true);
    }
}


/// The projectile arm of `spell` at a tier of life byte `life`:
/// (class-9 subtype, impact (class, model), charge rides along).
pub open spec fn dispatch_arm_spec(spell: usize, life: i8) -> Option<(u8, (u8, u8), bool)> {
    if spell == 0 && life >= 2 {
        Some((28u8, (10u8, 76u8), false))
    } else if spell == 0 {
        Some((0u8, (10u8, 0u8), false))
    } else if spell == 7 && (life == 1 || life == 2) {
        Some((12u8, (10u8, 38u8), false))
    } else if spell == 7 {
        Some((9u8, (10u8, 23u8), false))
    } else if spell == 9 {
        Some((3u8, (10u8, 17u8), true))
    } else if spell == 15 {
        Some((23u8, (10u8, 71u8), true))
    } else if spell == 16 {
        Some((5u8, (10u8, 11u8), true))
    } else if spell == 17 {
        Some((2u8, (10u8, 15u8), true))
    } else if spell == 18 {
        Some((4u8, (10u8, 9u8), true))
    } else if spell == 20 {
        Some((22u8, (10u8, 67u8), true))
    } else if spell == 13 {
        Some((8u8, (10u8, 25u8), false))
    } else if spell == 21 {
        Some((26u8, (10u8, 22u8), true))
    } else if spell == 25 {
        Some((30u8, (10u8, 89u8), true))
    } else {
        None
    }
}

impl World {
    /// The projectile arm table (see [`dispatch_arm_spec`]); None for a
    /// spell that launches no projectile.
    pub fn mc2_dispatch_arm(spell: usize, life: i8) -> (r: Option<DispatchArm>)
        ensures
            match dispatch_arm_spec(spell, life) {
                Some((st, imp, ch)) => r == Some(DispatchArm { subtype: st, impact: imp, charge: ch }),
                None => r.is_none(),
            },
    {
        let arm = |subtype: u8, impact: (u8, u8), charge: bool| -> (a: Option<DispatchArm>)
            ensures
                a == Some(DispatchArm { subtype, impact, charge }),
        { Some(DispatchArm { subtype, impact, charge }) };
        if spell == 0 && life >= 2 {
            arm(28, (10, 76), false)
        } else if spell == 0 {
            arm(0, (10, 0), false)
        } else if spell == 7 && (life == 1 || life == 2) {
            arm(12, (10, 38), false)
        } else if spell == 7 {
            arm(9, (10, 23), false)
        } else if spell == 9 {
            arm(3, (10, 17), true)
        } else if spell == 15 {
            arm(23, (10, 71), true)
        } else if spell == 16 {
            arm(5, (10, 11), true)
        } else if spell == 17 {
            arm(2, (10, 15), true)
        } else if spell == 18 {
            arm(4, (10, 9), true)
        } else if spell == 20 {
            arm(22, (10, 67), true)
        } else if spell == 13 {
            arm(8, (10, 25), false)
        } else if spell == 21 {
            arm(26, (10, 22), true)
        } else if spell == 25 {
            arm(30, (10, 89), true)
        } else {
            None
        }
    }
}


/// The first learned spell index at or after `from` (26 when none).
pub open spec fn first_owned_from(b: Mc2Spellbook, from: int) -> int
    decreases 26 - from,
{
    if from >= 26 {
        26
    } else if b.ent[from] != 0 {
        from
    } else {
        first_owned_from(b, from + 1)
    }
}

proof fn lemma_first_owned(b: Mc2Spellbook, from: int)
    requires
        0 <= from <= 26,
    ensures
        from <= first_owned_from(b, from) <= 26,
        first_owned_from(b, from) < 26 ==> b.ent[first_owned_from(b, from)] != 0,
        forall|k: int| from <= k < first_owned_from(b, from) ==> b.ent[k] == 0,
    decreases 26 - from,
{
    if from < 26 && b.ent[from] == 0 {
        lemma_first_owned(b, from + 1);
    }
}

proof fn lemma_first_owned_same(a: Mc2Spellbook, b: Mc2Spellbook, from: int)
    requires
        a.ent == b.ent,
    ensures
        first_owned_from(a, from) == first_owned_from(b, from),
    decreases 26 - from,
{
    if from < 26 {
        lemma_first_owned_same(a, b, from + 1);
    }
}

/// The level-start binding depends on the learned set alone.
pub proof fn lemma_canonical_hands_same(a: Mc2Spellbook, b: Mc2Spellbook)
    requires
        a.ent == b.ent,
    ensures
        canonical_hands(a) == canonical_hands(b),
{
    lemma_first_owned_same(a, b, 0);
    let x = first_owned_from(a, 0);
    if x < 26 {
        lemma_first_owned_same(a, b, x + 1);
    }
}

/// The level-start hand binding of book `b`: the first learned spell
/// on the left hand, the second on the right, −1 where there is none.
pub open spec fn canonical_hands(b: Mc2Spellbook) -> (i8, i8) {
    let a = first_owned_from(b, 0);
    let c = if a < 26 { first_owned_from(b, a + 1) } else { 26 };
    ((if a < 26 { a } else { -1 }) as i8, (if c < 26 { c } else { -1 }) as i8)
}

/// The level-start hand law: the left hand holds a learned spell with
/// no learned spell before it, the right hand a learned spell with
/// exactly one learned spell before it (the left one); a hand is empty
/// only when there are not enough learned spells.
pub proof fn law_canonical_hands(b: Mc2Spellbook)
    ensures
        ({
            let (l, r) = canonical_hands(b);
            &&& -1 <= l < 26
            &&& -1 <= r < 26
            &&& l >= 0 ==> b.ent[l as int] != 0 && forall|k: int| 0 <= k < l ==> b.ent[k] == 0
            &&& l < 0 ==> forall|k: int| 0 <= k < 26 ==> b.ent[k] == 0
            &&& r >= 0 ==> l >= 0 && l < r && b.ent[r as int] != 0 && forall|k: int| l < k < r ==> b.ent[k] == 0
            &&& r < 0 && l >= 0 ==> forall|k: int| l < k < 26 ==> b.ent[k] == 0
        }),
{
    lemma_first_owned(b, 0);
    let a = first_owned_from(b, 0);
    if a < 26 {
        lemma_first_owned(b, a + 1);
    }
}

/// The spells whose manifestation blinks in its last ticks.
pub open spec fn blink_spell(s: int) -> bool {
    s == 3 || s == 4 || s == 6 || s == 8 || s == 11 || s == 12 || s == 14
}

impl World {
    /// The level-start hand binding (see [`canonical_hands`]).
    pub fn mc2_rebind_hands_canonical(&mut self)
        requires
            old(self).wf(),
        ensures
            final(self).wf(),
            (final(self).mc2_book.left, final(self).mc2_book.right) == canonical_hands(old(self).mc2_book),
            final(self).mc2_book == (Mc2Spellbook {
                left: final(self).mc2_book.left,
                right: final(self).mc2_book.right,
                ..old(self).mc2_book
            }),
            final(self).g == old(self).g,
            final(self).player == old(self).player,
            final(self).notification == old(self).notification,
            final(self).entities_dirty == old(self).entities_dirty,
            final(self).mc2_duel == old(self).mc2_duel,
            final(self).pending_speed_zero == old(self).pending_speed_zero,
            final(self).keeps_rest(old(self)),
    {
        let ghost b = self.mc2_book;
        proof {
            lemma_first_owned(b, 0);
        }
        let mut a: usize = 0;
        while a < 26 && self.mc2_book.ent[a] == 0
            invariant
                a <= 26,
                self.mc2_book == b,
                first_owned_from(b, 0) == first_owned_from(b, a as int),
            decreases 26 - a,
        {
            a = a + 1;
        }
        let mut c: usize = 26;
        if a < 26 {
            c = a + 1;
            while c < 26 && self.mc2_book.ent[c] == 0
                invariant
                    a < c <= 26,
                    self.mc2_book == b,
                    first_owned_from(b, a + 1) == first_owned_from(b, c as int),
                decreases 26 - c,
            {
                c = c + 1;
            }
        }
        self.mc2_book.left = if a < 26 { a as i8 } else { -1 };
        self.mc2_book.right = if c < 26 { c as i8 } else { -1 };
    }

    /// The cycle-ring store: spell `spell` (below 26) joins ring `val`
    /// (capped at 2; 0 leaves the rings) with sound 14; nothing
    /// otherwise.
    pub fn mc2_ring_set(&mut self, spell: u8, val: u8)
        requires
            old(self).wf(),
        ensures
            final(self).wf(),
            spell < 26 ==> final(self).mc2_book == (Mc2Spellbook { ring: final(self).mc2_book.ring, ..old(self).mc2_book }),
            spell < 26 ==> final(self).mc2_book.ring@ == old(self).mc2_book.ring@.update(spell as int, if val > 2 { 2u8 } else { val }),
            spell < 26 ==> final(self).g.sounds@ == old(self).g.sounds@.push((14u8, PLAYER_TARGET)),
            spell >= 26 ==> final(self).mc2_book == old(self).mc2_book && final(self).g == old(self).g,
            final(self).g.ent == old(self).g.ent,
            final(self).g.free == old(self).g.free,
            final(self).player == old(self).player,
            final(self).notification == old(self).notification,
            final(self).keeps_rest(old(self)),
    {
        if spell >= 26 {
            return;
        }
        self.mc2_book.ring[spell as usize] = if val > 2 { 2 } else { val };
        self.g.snd_player(14);
    }

    /// The invisibility break on arming a spell: strength 1 breaks on
    /// anything, strength 2 on anything but possession (spell 1),
    /// strength 3 never; a break drops the cloak and ends the
    /// invisibility window.
    #[verifier::spinoff_prover]
    #[verifier::rlimit(60)]
    pub fn mc2_arm_invis_break(&mut self, spell: usize)
        requires
            old(self).wf(),
        ensures
            final(self).wf(),
            ({
                let st = old(self).player.invis_strength;
                let brk = st != 0 && (st < 2 || (st <= 2 && spell != 1));
                let inv = old(self).mc2_book.ent[11] as int;
                &&& brk ==> !final(self).player.invisible && final(self).player.invis_strength == 0
                &&& brk ==> final(self).player == (Player { invisible: false, invis_strength: 0, ..old(self).player })
                &&& brk && inv != 0 ==> final(self).g.ent@ == old(self).g.ent@.update(inv, Ent { f26: 0, ..old(self).g.ent[inv] })
                &&& !(brk && inv != 0) ==> final(self).g.ent == old(self).g.ent
                &&& !brk ==> final(self).player == old(self).player
            }),
            final(self).g.free == old(self).g.free,
            final(self).g.sounds == old(self).g.sounds,
            final(self).g.keeps_world(&old(self).g),
            final(self).mc2_book == old(self).mc2_book,
            final(self).notification == old(self).notification,
            final(self).keeps_rest(old(self)),
            final(self).entities_dirty == old(self).entities_dirty,
            final(self).mc2_duel == old(self).mc2_duel,
            final(self).pending_speed_zero == old(self).pending_speed_zero,
    {
        let st = self.player.invis_strength;
        if st != 0 && (st < 2 || (st <= 2 && spell != 1)) {
            self.player.invisible = false;
            self.player.invis_strength = 0;
            let inv = self.mc2_book.ent[11] as usize;
            if inv != 0 {
                let ghost g0 = self.g;
                let mut e = self.g.ent[inv];
                e.f26 = 0;
                self.g.ent.set(inv, e);
                proof {
                    lemma_wf_same_classes(&g0, &self.g);
                }
            }
        }
    }

    /// May manifestation `m`'s cast proceed this tick? The human alive;
    /// an upkeep spell needs his castle's store to cover the upkeep;
    /// on the first tick of the window the full cost must be covered
    /// (always under the all-spells instrument).
    #[verifier::spinoff_prover]
    #[verifier::rlimit(60)]
    pub fn mc2_afford(&self, m: usize) -> (ok: bool)
        requires
            self.wf(),
            m < self.g.ent.len(),
        ensures
            ok == ({
                let e = self.g.ent[m as int];
                let upkeep_ok = e.f136 <= 0 || match self.castle_of_spec(PLAYER_TARGET) {
                    Some(c) => self.g.ent[c as int].f140 >= e.f136,
                    None => false,
                };
                let first = (e.f26 as int % 0x10000) == (if e.f28 > 1 { e.f28 as int } else { 1 });
                &&& self.player.state == LifeState::Alive
                &&& upkeep_ok
                &&& first ==> (self.dev_spells || self.player.mana >= e.max_life)
            }),
    {
        if self.player.state != LifeState::Alive {
            return false;
        }
        let e = self.g.ent[m];
        if e.f136 > 0 {
            let ok = match self.player_castle() {
                Some(c) => self.g.ent[c].f140 >= e.f136,
                None => false,
            };
            if !ok {
                return false;
            }
        }
        let want: u16 = if e.f28 > 1 { e.f28 } else { 1 };
        let cur = ((e.f26 as i32 + 0x10000) % 0x10000) as u16;
        if cur == want {
            return self.dev_spells || self.player.mana as u64 >= e.max_life as u64;
        }
        true
    }

    /// Is the human's castle cast locked: his castle ball still flying,
    /// or his castle anywhere but the standing idle (action 4, no
    /// settle timer, no armed upgrade)?
    pub fn mc2_castle_lock_active(&self) -> (r: bool)
        requires
            self.wf(),
        ensures
            r == ((exists|j: int|
                1 <= j < self.g.ent.len() && #[trigger] self.g.ent[j].class64 == 9 && self.g.ent[j].model65 == 10
                    && self.g.ent[j].id24 == PLAYER_TARGET && self.g.ent[j].flags & F_REAPED == 0) || match self.castle_of_spec(
                PLAYER_TARGET,
            ) {
                Some(c) => !(self.g.ent[c as int].tick70 == 4 && self.g.ent[c as int].f50 == 0 && self.g.ent[c as int].flags
                    & F_UPGRADE_ARMED == 0),
                None => false,
            }),
    {
        let n = self.g.ent.len();
        let mut j: usize = 1;
        while j < n
            invariant
                n == self.g.ent.len(),
                1 <= j <= n,
                forall|q: int|
                    1 <= q < j ==> !(#[trigger] self.g.ent[q].class64 == 9 && self.g.ent[q].model65 == 10 && self.g.ent[q].id24
                        == PLAYER_TARGET && self.g.ent[q].flags & F_REAPED == 0),
            decreases n - j,
        {
            let e = self.g.ent[j];
            if e.class64 == 9 && e.model65 == 10 && e.id24 == PLAYER_TARGET && e.flags & F_REAPED == 0 {
                assert(self.g.ent[j as int].class64 == 9);
                return true;
            }
            j = j + 1;
        }
        match self.player_castle() {
            Some(c) => {
                let e = self.g.ent[c];
                !(e.tick70 == 4 && e.f50 == 0 && e.flags & F_UPGRADE_ARMED == 0)
            },
            None => false,
        }
    }
}


/// The human's castle store as the pane reads it (0 with no castle).
pub open spec fn castle_mana_spec(w: &World) -> int {
    match w.castle_of_spec(PLAYER_TARGET) {
        Some(c) => w.g.ent[c as int].f140 as int,
        None => 0,
    }
}

/// Is tier `t` of spell `s` castable from a castle store of `cm`: the
/// tier's castle-pool prerequisite is 0 or covered (false without a
/// spell row)?
pub open spec fn castable_spec(w: &World, s: int, t: int, cm: int) -> bool {
    s < w.g.assets.spells.len() && ({
        let mml = w.g.assets.spells[s].tiers[t].max_mana_limit;
        mml <= 0 || cm >= mml
    })
}

/// A cost as the pane shows it: floored at 0.
pub open spec fn shown_cost(c: int) -> u32 {
    (if c < 0 { 0 } else { c }) as u32
}

/// Is the book's effective XP of every spell representable?
pub open spec fn xp_sums_fit(b: Mc2Spellbook) -> bool {
    forall|s: int| 0 <= s < 26 ==> i32::MIN <= #[trigger] b.xp_vol[s] + b.xp_bank[s] <= i32::MAX
}

impl World {
    /// The spell pane's read-only view of the book: per spell whether
    /// it is learned, its level and selected tier, its effective XP
    /// (banked + volatile), the tier thresholds, the selected tier's
    /// and every tier's cast cost (floored at 0), whether a cast is in
    /// progress, whether a blinking spell is in its last 31 ticks, and
    /// per tier whether the castle-pool prerequisite is met; plus the
    /// hand bindings and the cycle rings.
    pub fn mc2_book_view(&self) -> (v: Mc2BookView)
        requires
            self.wf(),
            xp_sums_fit(self.mc2_book),
        ensures
            v.levels == self.mc2_book.levels,
            v.sel == self.mc2_book.sel,
            v.left == self.mc2_book.left,
            v.right == self.mc2_book.right,
            v.ring == self.mc2_book.ring,
            forall|s: int| 0 <= s < 26 ==> #[trigger] v.owned[s] == (self.mc2_book.ent[s] != 0),
            forall|s: int| 0 <= s < 26 ==> #[trigger] v.xp[s] == self.mc2_book.xp_vol[s] + self.mc2_book.xp_bank[s],
            forall|s: int| 0 <= s < 26 ==> #[trigger] v.cost[s] == shown_cost(self.mana_cost_spec(s, tier_ix(self.mc2_book.sel[s] as int))),
            forall|s: int| 0 <= s < 26 ==> #[trigger] v.armed[s] == (self.mc2_book.ent[s] != 0 && self.g.ent[self.mc2_book.ent[s] as int].f26 > 0),
            forall|s: int| 0 <= s < 26 ==> #[trigger] v.expiring[s] == (self.mc2_book.ent[s] != 0 && blink_spell(s) && 1
                <= self.g.ent[self.mc2_book.ent[s] as int].f26 < 32),
            forall|s: int, t: int| 0 <= s < 26 && 0 <= t < 3 ==> #[trigger] v.xpos[s][t] == (if s < self.g.assets.spells.len() {
                self.g.assets.spells[s].tiers[t].xpos1
            } else {
                0i32
            }),
            forall|s: int, t: int| 0 <= s < 26 && 0 <= t < 3 ==> #[trigger] v.cost_tier[s][t] == shown_cost(self.mana_cost_spec(s, t)),
            forall|s: int, t: int| 0 <= s < 26 && 0 <= t < 3 ==> #[trigger] v.castable[s][t] == castable_spec(self, s, t, castle_mana_spec(self)),
    {
        let cm: i32 = match self.player_castle() {
            Some(c) => self.g.ent[c].f140,
            None => 0,
        };
        let mut owned = [false; 26];
        let mut xp = [0i32; 26];
        let mut xpos = [[0i32; 3]; 26];
        let mut cost = [0u32; 26];
        let mut cost_tier = [[0u32; 3]; 26];
        let mut armed = [false; 26];
        let mut expiring = [false; 26];
        let mut castable = [[false; 3]; 26];
        let mut s: usize = 0;
        while s < 26
            invariant
                self.wf(),
                xp_sums_fit(self.mc2_book),
                cm == castle_mana_spec(self),
                s <= 26,
                forall|k: int| 0 <= k < s ==> #[trigger] owned[k] == (self.mc2_book.ent[k] != 0),
                forall|k: int| 0 <= k < s ==> #[trigger] xp[k] == self.mc2_book.xp_vol[k] + self.mc2_book.xp_bank[k],
                forall|k: int| 0 <= k < s ==> #[trigger] cost[k] == shown_cost(self.mana_cost_spec(k, tier_ix(self.mc2_book.sel[k] as int))),
                forall|k: int| 0 <= k < s ==> #[trigger] armed[k] == (self.mc2_book.ent[k] != 0 && self.g.ent[self.mc2_book.ent[k] as int].f26 > 0),
                forall|k: int| 0 <= k < s ==> #[trigger] expiring[k] == (self.mc2_book.ent[k] != 0 && blink_spell(k) && 1
                    <= self.g.ent[self.mc2_book.ent[k] as int].f26 < 32),
                forall|k: int, t: int| 0 <= k < s && 0 <= t < 3 ==> #[trigger] xpos[k][t] == (if k < self.g.assets.spells.len() {
                    self.g.assets.spells[k].tiers[t].xpos1
                } else {
                    0i32
                }),
                forall|k: int, t: int| 0 <= k < s && 0 <= t < 3 ==> #[trigger] cost_tier[k][t] == shown_cost(self.mana_cost_spec(k, t)),
                forall|k: int, t: int| 0 <= k < s && 0 <= t < 3 ==> #[trigger] castable[k][t] == castable_spec(self, k, t, cm as int),
            decreases 26 - s,
        {
            let m = self.mc2_book.ent[s] as usize;
            owned[s] = m != 0;
            xp[s] = self.mc2_book.xp_vol[s] + self.mc2_book.xp_bank[s];
            let sel = self.mc2_book.sel[s] as usize;
            let tier: usize = if sel > 2 { 2 } else { sel };
            let mut xrow = [0i32; 3];
            let mut crow = [false; 3];
            let mut ctrow = [0u32; 3];
            assert(xrow@ =~= seq![0i32, 0, 0] && crow@ =~= seq![false, false, false]);
            let mut t: usize = 0;
            while t < 3
                invariant
                    self.wf(),
                    s < 26,
                    t <= 3,
                    forall|q: int| 0 <= q < t ==> #[trigger] xrow[q] == (if s < self.g.assets.spells.len() {
                        self.g.assets.spells[s as int].tiers[q].xpos1
                    } else {
                        0i32
                    }),
                    forall|q: int| 0 <= q < t ==> #[trigger] crow[q] == castable_spec(self, s as int, q, cm as int),
                    forall|q: int| 0 <= q < t ==> #[trigger] ctrow[q] == shown_cost(self.mana_cost_spec(s as int, q)),
                    forall|q: int| t <= q < 3 ==> #[trigger] xrow[q] == 0i32,
                    forall|q: int| t <= q < 3 ==> !#[trigger] crow[q],
                decreases 3 - t,
            {
                if s < self.g.assets.spells.len() {
                    let sub = self.g.assets.spells[s].tiers[t];
                    xrow[t] = sub.xpos1;
                    let mml = sub.max_mana_limit;
                    let ok = mml <= 0 || cm as i64 >= mml as i64;
                    crow[t] = ok;
                    assert(ok == castable_spec(self, s as int, t as int, cm as int));
                }
                let c = self.mc2_spell_mana_cost(s, t);
                ctrow[t] = if c < 0 { 0 } else { c as u32 };
                t = t + 1;
            }
            xpos[s] = xrow;
            castable[s] = crow;
            cost_tier[s] = ctrow;
            let c = self.mc2_spell_mana_cost(s, tier);
            cost[s] = if c < 0 { 0 } else { c as u32 };
            armed[s] = m != 0 && self.g.ent[m].f26 > 0;
            let blink = s == 3 || s == 4 || s == 6 || s == 8 || s == 11 || s == 12 || s == 14;
            expiring[s] = m != 0 && blink && 1 <= self.g.ent[m].f26 && self.g.ent[m].f26 < 32;
            s = s + 1;
        }
        Mc2BookView {
            owned,
            levels: self.mc2_book.levels,
            sel: self.mc2_book.sel,
            xp,
            xpos,
            cost,
            cost_tier,
            armed,
            expiring,
            castable,
            left: self.mc2_book.left,
            right: self.mc2_book.right,
            ring: self.mc2_book.ring,
        }
    }
}


/// The hand binding after a jar lands for `spell` with hand hint
/// `hint` (2 = the left hand it was stolen from, 1 = the right): the
/// hinted hand; without a hint the left hand when it is free or both
/// are taken, else the right.
pub open spec fn pickup_hands(left: i8, right: i8, hint: u16, spell: int) -> (i8, i8) {
    if hint == 2 {
        (spell as i8, right)
    } else if hint == 1 {
        (left, spell as i8)
    } else if left == -1 || right != -1 {
        (spell as i8, right)
    } else {
        (left, spell as i8)
    }
}

impl World {
    /// Adopt token `m` as the human's manifestation of `spell`: the
    /// token takes the spell's effect state (action 3·spell), a 64-tick
    /// re-steal lock, the human as owner, an idle window; the book
    /// learns it; the hands bind by the pickup law (see
    /// [`pickup_hands`]) and the hint clears; the level re-derives
    /// (silently, no banking) and the selected tier is wired in.
    pub fn mc2_adopt_manifestation(&mut self, m: usize, spell: usize)
        requires
            old(self).wf(),
            1 <= m < old(self).g.ent.len(),
            m < 0x10000,
            spell < 26,
            xp_ok(old(self).mc2_book, spell as int),
        ensures
            final(self).wf(),
            final(self).mc2_book.ent@ == old(self).mc2_book.ent@.update(spell as int, m as u16),
            (final(self).mc2_book.left, final(self).mc2_book.right) == pickup_hands(
                old(self).mc2_book.left,
                old(self).mc2_book.right,
                old(self).g.ent[m as int].f36,
                spell as int,
            ),
            final(self).g.ent[m as int].id24 == PLAYER_TARGET,
            final(self).g.ent[m as int].f54 == 64,
            final(self).g.ent[m as int].f36 == 0,
            final(self).g.ent[m as int].tick70 == w8(3 * spell as int),
            final(self).g.ent.len() == old(self).g.ent.len(),
            forall|j: int| 0 <= j < old(self).g.ent.len() && j != m ==> #[trigger] final(self).g.ent[j] == old(self).g.ent[j],
            final(self).g.free == old(self).g.free,
            final(self).g.keeps_world(&old(self).g),
            final(self).player == old(self).player,
            final(self).keeps_rest(old(self)),
            final(self).mc2_book.ring == old(self).mc2_book.ring,
            final(self).mc2_book.xp_bank == old(self).mc2_book.xp_bank,
            forall|k: int| 0 <= k < 26 ==> #[trigger] final(self).mc2_book.xp_vol[k] == (if k == 2 && old(self).mc2_book.xp_vol[2] > 7
                && spell < old(self).g.assets.spells.len() {
                7i32
            } else {
                old(self).mc2_book.xp_vol[k]
            }),
            forall|k: int| 0 <= k < 26 && k != spell ==> #[trigger] final(self).mc2_book.levels[k] == old(self).mc2_book.levels[k],
            spell < old(self).g.assets.spells.len() ==> final(self).mc2_book.levels[spell as int] == level_for(
                old(self).g.assets.spells[spell as int],
                final(self).mc2_book.xp_vol[spell as int] + final(self).mc2_book.xp_bank[spell as int],
            ),
            final(self).notification == old(self).notification,
            final(self).g.sounds == old(self).g.sounds,
    {
        let mut e = self.g.ent[m];
        e.tick70 = (spell as u8).wrapping_mul(3);
        e.f54 = 64;
        e.id24 = PLAYER_TARGET;
        e.f26 = 0;
        e.f44 = 0;
        let hint = e.f36;
        e.f36 = 0;
        let ghost g0 = self.g;
        self.g.ent.set(m, e);
        proof {
            lemma_wf_same_classes(&g0, &self.g);
        }
        self.mc2_book.ent[spell] = m as u16;
        if hint == 2 {
            self.mc2_book.left = spell as i8;
        } else if hint == 1 {
            self.mc2_book.right = spell as i8;
        } else if self.mc2_book.left == -1 || self.mc2_book.right != -1 {
            self.mc2_book.left = spell as i8;
        } else {
            self.mc2_book.right = spell as i8;
        }
        self.mc2_relevel(spell, false, false);
        let t = self.mc2_book.sel[spell];
        self.mc2_set_spell(m, t);
    }

    /// The all-spells instrument's grant: a hidden token for `spell` at
    /// the human, adopted at once; nothing on a full pool.
    pub fn mc2_dev_grant(&mut self, spell: usize)
        requires
            old(self).wf(),
            spell < 26,
            xp_ok(old(self).mc2_book, spell as int),
        ensures
            final(self).wf(),
            old(self).g.free.len() > 0 ==> final(self).mc2_book.ent@ == old(self).mc2_book.ent@.update(
                spell as int,
                old(self).g.free@.last() as u16,
            ),
            old(self).g.free.len() > 0 ==> final(self).g.free@ == old(self).g.free@.drop_last(),
            old(self).g.free.len() == 0 ==> final(self).mc2_book == old(self).mc2_book && final(self).g.ent == old(self).g.ent
                && final(self).g.free@ == old(self).g.free@,
            final(self).mc2_book.ring == old(self).mc2_book.ring,
            final(self).mc2_book.xp_bank == old(self).mc2_book.xp_bank,
            old(self).g.free.len() > 0 ==> forall|k: int| 0 <= k < 26 ==> #[trigger] final(self).mc2_book.xp_vol[k] == (if k == 2
                && old(self).mc2_book.xp_vol[2] > 7 && spell < old(self).g.assets.spells.len() {
                7i32
            } else {
                old(self).mc2_book.xp_vol[k]
            }),
            final(self).player == old(self).player,
            final(self).keeps_rest(old(self)),
            final(self).g.assets == old(self).g.assets,
            forall|k: int| 0 <= k < 26 && k != spell ==> #[trigger] final(self).mc2_book.levels[k] == old(self).mc2_book.levels[k],
            old(self).g.free.len() > 0 && spell < old(self).g.assets.spells.len() ==> final(self).mc2_book.levels[spell as int] == level_for(
                old(self).g.assets.spells[spell as int],
                final(self).mc2_book.xp_vol[spell as int] + final(self).mc2_book.xp_bank[spell as int],
            ),
            final(self).notification == old(self).notification,
            final(self).g.sounds == old(self).g.sounds,
    {
        let (px, py, pz) = self.human_pose;
        match self.g.mc2_spawn_spell_token(spell as u8, px, py, pz) {
            Some(m) => {
                self.mc2_adopt_manifestation(m, spell);
            },
            None => {},
        }
    }

    /// The spell-change command: `spell` beyond 25 clears the hand
    /// (`hand` 0 = left, else right). Otherwise (the all-spells
    /// instrument first granting an unlearned spell) a learned spell's
    /// selected tier becomes `tier` capped at its level (at the tier
    /// count under the instrument), the hand binds it, the tier is
    /// wired in, sound 14 plays and the tier's own name shows for 20
    /// ticks; an unlearned spell is ignored.
    #[verifier::spinoff_prover]
    #[verifier::rlimit(90)]
    pub fn mc2_select_spell(&mut self, spell: u8, tier: u8, hand: u8)
        requires
            old(self).wf(),
            spell < 26 && old(self).dev_spells && old(self).mc2_book.ent[spell as int] == 0 ==> xp_ok(old(self).mc2_book, spell as int),
        ensures
            final(self).wf(),
            spell >= 26 && hand == 0 ==> final(self).mc2_book == (Mc2Spellbook { left: -1i8, ..old(self).mc2_book }),
            spell >= 26 && hand != 0 ==> final(self).mc2_book == (Mc2Spellbook { right: -1i8, ..old(self).mc2_book }),
            spell >= 26 ==> final(self).g == old(self).g && final(self).notification == old(self).notification,
            spell < 26 && old(self).mc2_book.ent[spell as int] == 0 && !old(self).dev_spells ==> final(self).mc2_book
                == old(self).mc2_book && final(self).g == old(self).g && final(self).notification == old(self).notification,
            spell < 26 && old(self).mc2_book.ent[spell as int] != 0 ==> {
                let s = spell as int;
                let o = old(self);
                let cap = if o.dev_spells {
                    if s < o.g.assets.spells.len() { clampi(o.g.assets.spells[s].byte_0 as int - 1, 0, 255) } else { 0 }
                } else {
                    o.mc2_book.levels[s] as int
                };
                let t = if tier as int > cap { cap } else { tier as int };
                &&& final(self).mc2_book.sel@ == o.mc2_book.sel@.update(s, t as u8)
                &&& hand == 0 ==> final(self).mc2_book.left == spell as i8 && final(self).mc2_book.right == o.mc2_book.right
                &&& hand != 0 ==> final(self).mc2_book.right == spell as i8 && final(self).mc2_book.left == o.mc2_book.left
                &&& final(self).mc2_book.ent == o.mc2_book.ent
                &&& final(self).g.sounds@ == o.g.sounds@.push((14u8, PLAYER_TARGET))
                &&& final(self).notification is Some
                &&& final(self).notification->0.text@ == o.spell_name_spec(s, t)
                &&& final(self).notification->0.ticks == NOTIFY_TICKS_SELECT
                &&& final(self).notification->0.color@ == seq![255u8, 0, 0]
                &&& final(self).mc2_book.levels == o.mc2_book.levels
                &&& final(self).mc2_book.xp_vol == o.mc2_book.xp_vol
                &&& final(self).mc2_book.xp_bank == o.mc2_book.xp_bank
                &&& final(self).mc2_book.ring == o.mc2_book.ring
                &&& final(self).g.ent@ == o.g.ent@.update(
                    o.mc2_book.ent[s] as int,
                    o.set_spell_spec(o.g.ent[o.mc2_book.ent[s] as int], t as u8),
                )
            },
            final(self).player == old(self).player,
            final(self).keeps_rest(old(self)),
    {
        let s = spell as usize;
        if s >= 26 {
            if hand == 0 {
                self.mc2_book.left = -1;
            } else {
                self.mc2_book.right = -1;
            }
            return;
        }
        if self.mc2_book.ent[s] == 0 && self.dev_spells {
            self.mc2_dev_grant(s);
        }
        if self.mc2_book.ent[s] == 0 {
            return;
        }
        let ghost mid = *self;
        let cap: u8 = if self.dev_spells {
            if s < self.g.assets.spells.len() {
                let c = self.g.assets.spells[s].byte_0 as i16 - 1;
                if c < 0 { 0 } else { c as u8 }
            } else {
                0
            }
        } else {
            self.mc2_book.levels[s]
        };
        let t = if tier > cap { cap } else { tier };
        self.mc2_book.sel[s] = t;
        if hand == 0 {
            self.mc2_book.left = spell as i8;
        } else {
            self.mc2_book.right = spell as i8;
        }
        let m = self.mc2_book.ent[s] as usize;
        let ghost before_set = *self;
        self.mc2_set_spell(m, t);
        assert(before_set.set_spell_spec(before_set.g.ent[m as int], t) == mid.set_spell_spec(mid.g.ent[m as int], t));
        self.g.snd_player(14);
        let name = self.mc2_spell_name(s, t as usize);
        self.set_notification(name, NOTIFY_TICKS_SELECT, notify_red());
    }
}


/// Do the grants' banked XP values fit beside the book's volatile XP?
pub open spec fn grants_fit(b: Mc2Spellbook, grants: Seq<(u8, i32)>) -> bool {
    forall|k: int|
        0 <= k < grants.len() && (#[trigger] grants[k]).0 < 26 ==> xp_fits(
            b.xp_vol[grants[k].0 as int] as int,
            (if grants[k].1 < 0 { 0 } else { grants[k].1 as int }),
            grants[k].0 as int,
        )
}

/// How many of the first `n` spells are learned in `b` but were not in
/// `a`?
pub open spec fn count_new(a: Seq<u16>, b: Seq<u16>, n: int) -> int
    decreases n,
{
    if n <= 0 {
        0
    } else {
        count_new(a, b, n - 1) + if a[n - 1] == 0 && b[n - 1] != 0 { 1int } else { 0int }
    }
}

/// Nothing is new against itself.
proof fn lemma_count_new_zero(a: Seq<u16>, n: int)
    ensures
        count_new(a, a, n) == 0,
    decreases n,
{
    if n > 0 {
        lemma_count_new_zero(a, n - 1);
    }
}

/// Learning one more spell `sp` adds one to the count.
proof fn lemma_count_new_step(a: Seq<u16>, b: Seq<u16>, sp: int, v: u16, n: int)
    requires
        0 <= sp < b.len(),
        a[sp] == 0,
        b[sp] == 0,
        v != 0,
        0 <= n <= b.len(),
    ensures
        count_new(a, b.update(sp, v), n) == count_new(a, b, n) + if sp < n { 1int } else { 0int },
    decreases n,
{
    if n > 0 {
        lemma_count_new_step(a, b, sp, v, n - 1);
    }
}

/// Does the effective XP of every granted spell fit?
pub open spec fn granted_xp_ok(b: Mc2Spellbook, grants: Seq<(u8, i32)>) -> bool {
    forall|k: int| 0 <= k < grants.len() && (#[trigger] grants[k]).0 < 26 ==> xp_ok(b, grants[k].0 as int)
}

impl World {
    /// The cross-level selector carry (MC2 only): every spell's cycle
    /// ring (capped at 2) and selected tier (capped at its level) are
    /// installed and each learned manifestation is rewired to its tier;
    /// a carried hand binding is kept only when it names a learned
    /// spell.
    pub fn mc2_install_selector_carry(&mut self, sel: &[u8; 26], ring: &[u8; 26], left: i8, right: i8)
        requires
            old(self).wf(),
        ensures
            final(self).wf(),
            old(self).game != GameId::Mc2 ==> final(self).mc2_book == old(self).mc2_book && final(self).g == old(self).g,
            old(self).game == GameId::Mc2 ==> {
                let o = old(self).mc2_book;
                let f = final(self).mc2_book;
                &&& forall|s: int| 0 <= s < 26 ==> #[trigger] f.ring[s] == (if ring[s] > 2 { 2u8 } else { ring[s] })
                &&& forall|s: int| 0 <= s < 26 ==> #[trigger] f.sel[s] == (if sel[s] > o.levels[s] { o.levels[s] } else { sel[s] })
                &&& f.left == (if 0 <= left < 26 && o.ent[left as int] != 0 { left } else { o.left })
                &&& f.right == (if 0 <= right < 26 && o.ent[right as int] != 0 { right } else { o.right })
                &&& f.ent == o.ent
                &&& f.levels == o.levels
                &&& f.xp_vol == o.xp_vol
                &&& f.xp_bank == o.xp_bank
                &&& final(self).g.ent.len() == old(self).g.ent.len()
                &&& forall|j: int| 0 <= j < old(self).g.ent.len() ==> #[trigger] final(self).g.ent[j] == match last_bind(o.ent@, j, 26) {
                    Some(s) => old(self).set_spell_spec(old(self).g.ent[j], f.sel[s]),
                    None => old(self).g.ent[j],
                }
            },
            forall|s: int| 0 <= s < 26 ==> #[trigger] final(self).mc2_book.sel[s] <= final(self).mc2_book.levels[s] || old(self).game != GameId::Mc2,
            final(self).g == (Gen { ent: final(self).g.ent, ..old(self).g }),
            final(self).player == old(self).player,
            final(self).keeps_rest(old(self)),
    {
        if self.game() != GameId::Mc2 {
            return;
        }
        let ghost o = self.mc2_book;
        let ghost w0 = *self;
        let mut vals: Vec<Ent> = Vec::new();
        let mut s: usize = 0;
        while s < 26
            invariant
                self.wf(),
                s <= 26,
                self.game == GameId::Mc2,
                o == old(self).mc2_book,
                w0 == *old(self),
                self.g == old(self).g,
                self.dev_spells == old(self).dev_spells,
                vals@.len() == s,
                forall|k: int| 0 <= k < s ==> #[trigger] self.mc2_book.ring[k] == (if ring[k] > 2 { 2u8 } else { ring[k] }),
                forall|k: int| 0 <= k < s ==> #[trigger] self.mc2_book.sel[k] == (if sel[k] > o.levels[k] { o.levels[k] } else { sel[k] }),
                forall|k: int| s <= k < 26 ==> #[trigger] self.mc2_book.ring[k] == o.ring[k],
                forall|k: int| s <= k < 26 ==> #[trigger] self.mc2_book.sel[k] == o.sel[k],
                forall|k: int| 0 <= k < s && o.ent[k] != 0 ==> #[trigger] vals@[k] == w0.set_spell_spec(
                    w0.g.ent[o.ent[k] as int],
                    self.mc2_book.sel[k],
                ),
                self.mc2_book.ent == o.ent,
                self.mc2_book.levels == o.levels,
                self.mc2_book.xp_vol == o.xp_vol,
                self.mc2_book.xp_bank == o.xp_bank,
                self.mc2_book.left == o.left,
                self.mc2_book.right == o.right,
                self.player == old(self).player,
                self.keeps_rest(old(self)),
            decreases 26 - s,
        {
            let r = ring[s];
            self.mc2_book.ring[s] = if r > 2 { 2 } else { r };
            let lv = self.mc2_book.levels[s];
            let t = if sel[s] > lv { lv } else { sel[s] };
            self.mc2_book.sel[s] = t;
            let m = self.mc2_book.ent[s] as usize;
            if m != 0 {
                let v = self.set_spell_value(self.g.ent[m], t);
                proof {
                    assert(self.set_spell_spec(self.g.ent[m as int], t) == w0.set_spell_spec(w0.g.ent[m as int], t));
                }
                vals.push(v);
            } else {
                vals.push(self.g.ent[0]);
            }
            s = s + 1;
        }
        let ghost book = self.mc2_book;
        let mut k: usize = 0;
        while k < 26
            invariant
                k <= 26,
                self.wf(),
                self.game == GameId::Mc2,
                self.mc2_book == book,
                book.ent == o.ent,
                o == old(self).mc2_book,
                w0 == *old(self),
                vals@.len() == 26,
                forall|q: int| 0 <= q < 26 && o.ent[q] != 0 ==> #[trigger] vals@[q] == w0.set_spell_spec(
                    w0.g.ent[o.ent[q] as int],
                    book.sel[q],
                ),
                self.g == (Gen { ent: self.g.ent, ..old(self).g }),
                self.g.ent.len() == old(self).g.ent.len(),
                forall|j: int| 0 <= j < old(self).g.ent.len() ==> #[trigger] self.g.ent[j] == match last_bind(o.ent@, j, k as int) {
                    Some(q) => w0.set_spell_spec(w0.g.ent[j], book.sel[q]),
                    None => w0.g.ent[j],
                },
                self.player == old(self).player,
                self.keeps_rest(old(self)),
            decreases 26 - k,
        {
            let m = self.mc2_book.ent[k] as usize;
            if m != 0 {
                let ghost g0 = self.g;
                proof {
                    assert(m < self.g.ent.len());
                }
                self.g.ent.set(m, vals[k]);
                proof {
                    lemma_wf_same_classes(&g0, &self.g);
                }
            }
            proof {
                assert forall|j: int| 0 <= j < old(self).g.ent.len() implies #[trigger] self.g.ent[j] == match last_bind(o.ent@, j, k as int + 1) {
                    Some(q) => w0.set_spell_spec(w0.g.ent[j], book.sel[q]),
                    None => w0.g.ent[j],
                } by {
                    if j == m as int && m != 0 {
                        assert(last_bind(o.ent@, j, k as int + 1) == Some(k as int));
                    } else {
                        assert(last_bind(o.ent@, j, k as int + 1) == last_bind(o.ent@, j, k as int));
                    }
                }
            }
            k = k + 1;
        }
        if 0 <= left && left < 26 && self.mc2_book.ent[left as usize] != 0 {
            self.mc2_book.left = left;
        }
        if 0 <= right && right < 26 && self.mc2_book.ent[right as usize] != 0 {
            self.mc2_book.right = right;
        }
    }

    /// The plausible-book instrument (MC2 only): for each (spell, XP)
    /// with a spell below 26, learn the spell when unlearned (a hidden
    /// manifestation; skipped on a full pool), bank max(XP, 0) and
    /// re-derive its level silently; then bind the hands as a level
    /// start does (see [`canonical_hands`]).
    pub fn mc2_grant_plausible(&mut self, grants: &[(u8, i32)])
        requires
            old(self).wf(),
            old(self).game == GameId::Mc2 ==> granted_xp_ok(old(self).mc2_book, grants@),
            old(self).game == GameId::Mc2 ==> grants_fit(old(self).mc2_book, grants@),
        ensures
            final(self).wf(),
            old(self).game != GameId::Mc2 ==> final(self).mc2_book == old(self).mc2_book && final(self).g == old(self).g,
            old(self).game == GameId::Mc2 ==> {
                let f = final(self).mc2_book;
                &&& (f.left, f.right) == canonical_hands(f)
                &&& forall|s: int| 0 <= s < 26 && old(self).mc2_book.ent[s] != 0 ==> #[trigger] f.ent[s] == old(self).mc2_book.ent[s]
                &&& forall|k: int|
                    0 <= k < grants.len() && (#[trigger] grants@[k]).0 < 26 && f.ent[grants@[k].0 as int] != 0 && (forall|k2: int|
                        k < k2 < grants.len() ==> grants@[k2].0 != grants@[k].0) ==> f.xp_bank[grants@[k].0 as int] == (if grants@[k].1
                        < 0 {
                        0
                    } else {
                        grants@[k].1
                    })
                &&& final(self).g.free.len() + count_new(old(self).mc2_book.ent@, f.ent@, 26) == old(self).g.free.len()
                &&& final(self).g.free.len() > 0 ==> forall|k: int|
                    0 <= k < grants.len() && (#[trigger] grants@[k]).0 < 26 ==> f.ent[grants@[k].0 as int] != 0
                &&& forall|k: int|
                    0 <= k < grants.len() && (#[trigger] grants@[k]).0 < 26 && f.ent[grants@[k].0 as int] != 0
                        && (grants@[k].0 as int) < old(self).g.assets.spells.len() ==> f.levels[grants@[k].0 as int] == level_for(
                        old(self).g.assets.spells[grants@[k].0 as int],
                        f.xp_vol[grants@[k].0 as int] + f.xp_bank[grants@[k].0 as int],
                    )
            },
            final(self).notification == old(self).notification,
            final(self).g.sounds == old(self).g.sounds,
            final(self).player == old(self).player,
            final(self).keeps_rest(old(self)),
    {
        if self.game() != GameId::Mc2 {
            return;
        }
        proof {
            lemma_count_new_zero(old(self).mc2_book.ent@, 26);
        }
        let ghost ob = old(self).mc2_book;
        let mut k: usize = 0;
        while k < grants.len()
            invariant
                self.wf(),
                self.game == GameId::Mc2,
                k <= grants.len(),
                granted_xp_ok(self.mc2_book, grants@),
                grants_fit(self.mc2_book, grants@),
                forall|s: int| 0 <= s < 26 && ob.ent[s] != 0 ==> #[trigger] self.mc2_book.ent[s] == ob.ent[s],
                forall|q: int|
                    0 <= q < k && (#[trigger] grants@[q]).0 < 26 && self.mc2_book.ent[grants@[q].0 as int] != 0 && (forall|q2: int|
                        q < q2 < k ==> grants@[q2].0 != grants@[q].0) ==> self.mc2_book.xp_bank[grants@[q].0 as int] == (if grants@[q].1
                        < 0 {
                        0
                    } else {
                        grants@[q].1
                    }),
                self.player == old(self).player,
                self.keeps_rest(old(self)),
                ob == old(self).mc2_book,
                self.notification == old(self).notification,
                self.g.sounds == old(self).g.sounds,
                self.g.assets == old(self).g.assets,
                self.g.free.len() <= old(self).g.free.len(),
                self.g.free.len() + count_new(ob.ent@, self.mc2_book.ent@, 26) == old(self).g.free.len(),
                forall|q: int| 0 <= q < k && (#[trigger] grants@[q]).0 < 26 ==> self.mc2_book.ent[grants@[q].0 as int] != 0
                    || self.g.free.len() == 0,
                forall|q: int| 0 <= q < k && (#[trigger] grants@[q]).0 < 26 && self.mc2_book.ent[grants@[q].0 as int] != 0
                    && (grants@[q].0 as int) < self.g.assets.spells.len() ==> {
                    let sq = grants@[q].0 as int;
                    &&& self.mc2_book.levels[sq] == level_for(self.g.assets.spells[sq], self.mc2_book.xp_vol[sq] + self.mc2_book.xp_bank[sq])
                    &&& (sq == 2 ==> self.mc2_book.xp_vol[2] <= 7)
                },
            decreases grants.len() - k,
        {
            let (spell, xp) = grants[k];
            let sp = spell as usize;
            if sp < 26 {
                let ghost pre = self.mc2_book;
                if self.mc2_book.ent[sp] == 0 {
                    assert(xp_ok(self.mc2_book, sp as int));
                    let ghost pre_e = self.mc2_book.ent@;
                    let ghost pre_free = self.g.free.len();
                    self.mc2_dev_grant(sp);
                    proof {
                        if pre_free > 0 {
                            assert(ob.ent@[sp as int] == 0) by {
                                if ob.ent@[sp as int] != 0 {
                                    assert(pre.ent[sp as int] == ob.ent[sp as int]);
                                }
                            }
                            lemma_count_new_step(ob.ent@, pre_e, sp as int, self.mc2_book.ent@[sp as int], 26);
                            assert(self.mc2_book.ent@ == pre_e.update(sp as int, self.mc2_book.ent@[sp as int]));
                        }
                        assert forall|q: int| 0 <= q < grants.len() && (#[trigger] grants@[q]).0 < 26 implies xp_ok(self.mc2_book, grants@[q].0 as int) by {
                            assert(xp_ok(pre, grants@[q].0 as int));
                        }
                        assert forall|q: int| 0 <= q < grants.len() && (#[trigger] grants@[q]).0 < 26 implies xp_fits(
                            self.mc2_book.xp_vol[grants@[q].0 as int] as int,
                            (if grants@[q].1 < 0 { 0 } else { grants@[q].1 as int }),
                            grants@[q].0 as int,
                        ) by {
                            assert(xp_fits(
                                pre.xp_vol[grants@[q].0 as int] as int,
                                (if grants@[q].1 < 0 { 0 } else { grants@[q].1 as int }),
                                grants@[q].0 as int,
                            ));
                        }
                    }
                }
                if self.mc2_book.ent[sp] != 0 {
                    let bank: i32 = if xp < 0 { 0 } else { xp };
                    let ghost pre2 = self.mc2_book;
                    self.mc2_book.xp_bank[sp] = bank;
                    proof {
                        assert(grants@[k as int].0 == spell);
                        assert(xp_fits(pre2.xp_vol[sp as int] as int, bank as int, sp as int));
                        assert(xp_ok(self.mc2_book, sp as int));
                        assert forall|q: int| 0 <= q < grants.len() && (#[trigger] grants@[q]).0 < 26 implies xp_ok(self.mc2_book, grants@[q].0 as int) by {
                            if grants@[q].0 != sp {
                                assert(xp_ok(pre2, grants@[q].0 as int));
                            }
                        }
                    }
                    let ghost pre3 = self.mc2_book;
                    self.mc2_relevel(sp, false, false);
                    proof {
                        assert forall|q: int| 0 <= q < grants.len() && (#[trigger] grants@[q]).0 < 26 implies xp_ok(self.mc2_book, grants@[q].0 as int) by {
                            assert(xp_ok(pre3, grants@[q].0 as int));
                        }
                        assert forall|q: int| 0 <= q < grants.len() && (#[trigger] grants@[q]).0 < 26 implies xp_fits(
                            self.mc2_book.xp_vol[grants@[q].0 as int] as int,
                            (if grants@[q].1 < 0 { 0 } else { grants@[q].1 as int }),
                            grants@[q].0 as int,
                        ) by {
                            assert(xp_fits(
                                pre3.xp_vol[grants@[q].0 as int] as int,
                                (if grants@[q].1 < 0 { 0 } else { grants@[q].1 as int }),
                                grants@[q].0 as int,
                            ));
                        }
                    }
                }
            }
            k = k + 1;
        }
        let ghost pre = self.mc2_book;
        self.mc2_rebind_hands_canonical();
        proof {
            lemma_canonical_hands_same(pre, self.mc2_book);
        }
    }
}

/// The last of the first `k` spells whose manifestation slot is `j`
/// (a bound slot, never 0).
pub open spec fn last_bind(ent: Seq<u16>, j: int, k: int) -> Option<int>
    decreases k,
{
    if k <= 0 {
        None
    } else if j != 0 && ent[k - 1] as int == j {
        Some(k - 1)
    } else {
        last_bind(ent, j, k - 1)
    }
}

/// What the cast gate does with a press.
pub enum GateArm {
    /// Nothing (no token, off-cave Cave-In, or an active cast that
    /// does not re-arm).
    Refuse,
    /// The possession re-press: the release signal and the hand.
    Resignal,
    /// The buzz (sound 29): a castle re-cast in flight, or too little
    /// mana.
    Buzz,
    /// A channel spell's active window extended to this many ticks.
    Extend(i16),
    /// The arm: the window opens.
    Arm,
}

/// Does arming spell `spell` break the human's cloak?
pub open spec fn breaks_invis(p: Player, spell: int) -> bool {
    let st = p.invis_strength;
    st != 0 && (st < 2 || (st <= 2 && spell != 1))
}

/// The firing hand's code: 512 right, 256 left.
pub open spec fn hand_code(right: bool) -> u16 {
    if right { 512 } else { 256 }
}

impl World {
    /// The cast gate's decision for spell `spell`'s token.
    #[verifier::opaque]
    pub open spec fn gate_spec(&self, spell: int) -> GateArm {
        let m = self.mc2_book.ent[spell] as int;
        let e = self.g.ent[m];
        let armed = e.f26 > 0;
        let md = e.model65;
        if m == 0 || (spell == 25 && self.g.t.ceiling.len() == 0) {
            GateArm::Refuse
        } else if md == 0 && e.f71 >= 2 && armed {
            GateArm::Refuse
        } else if md == 1 && armed {
            GateArm::Resignal
        } else if md == 2 && armed {
            GateArm::Buzz
        } else if md == 7 && e.f71 >= 1 && armed {
            GateArm::Refuse
        } else if (md == 4 || md == 6 || md == 8 || md == 11 || md == 12 || md == 14) && armed {
            GateArm::Extend(if md == 4 { 7 } else { 1 })
        } else if (md == 9 || md == 10 || md == 13 || md == 15 || (16 <= md <= 24)) && armed {
            GateArm::Refuse
        } else if !self.dev_spells && self.player.mana < e.max_life {
            GateArm::Buzz
        } else {
            GateArm::Arm
        }
    }

    /// `b` is `a` with token `m` restamped to `e1` and the cloak-break
    /// law of arming spell `spell` applied.
    pub open spec fn stamped_and_broken(a: &World, b: &World, m: int, e1: Ent, spell: int) -> bool {
        let s1 = a.g.ent@.update(m, e1);
        let brk = breaks_invis(a.player, spell);
        let inv = a.mc2_book.ent[11] as int;
        &&& b.g.ent@ == (if brk && inv != 0 { s1.update(inv, Ent { f26: 0, ..s1[inv] }) } else { s1 })
        &&& b.player == (if brk { Player { invisible: false, invis_strength: 0, ..a.player } } else { a.player })
        &&& b.g.free == a.g.free
        &&& b.g.sounds == a.g.sounds
        &&& b.g.keeps_world(&a.g)
        &&& b.mc2_book == a.mc2_book
        &&& b.notification == a.notification
        &&& b.keeps_rest(a)
        &&& b.entities_dirty == a.entities_dirty
        &&& b.mc2_duel == a.mc2_duel
        &&& b.pending_speed_zero == a.pending_speed_zero
    }

    /// `b` is what the cast gate makes of `a` for a press of spell
    /// `spell` on the `right` (or left) hand.
    pub open spec fn gate_rel(a: &World, b: &World, spell: int, right: bool) -> bool {
        let m = a.mc2_book.ent[spell] as int;
        let e = a.g.ent[m];
        match a.gate_spec(spell) {
            GateArm::Refuse => *b == *a,
            GateArm::Buzz => {
                &&& b.g.sounds@ == a.g.sounds@.push((29u8, PLAYER_TARGET))
                &&& b.g == (Gen { sounds: b.g.sounds, ..a.g })
                &&& *b == (World { g: b.g, ..*a })
            },
            GateArm::Extend(v) => {
                &&& b.g.ent@ == a.g.ent@.update(m, Ent { f26: v, ..e })
                &&& b.g == (Gen { ent: b.g.ent, ..a.g })
                &&& *b == (World { g: b.g, ..*a })
            },
            GateArm::Resignal => World::stamped_and_broken(a, b, m, Ent { f56: 1, f50: hand_code(right), ..e }, spell),
            GateArm::Arm => World::stamped_and_broken(
                a,
                b,
                m,
                Ent { f26: (if e.f28 > 1 { e.f28 } else { 1 }) as i16, f50: hand_code(right), f56: 0, ..e },
                spell,
            ),
        }
    }

    /// Restamp token `m` to `e1` (same class), nothing else changed.
    pub fn restamp_token(&mut self, m: usize, e1: Ent)
        requires
            old(self).wf(),
            m < old(self).g.ent.len(),
            e1.class64 == old(self).g.ent[m as int].class64,
        ensures
            final(self).wf(),
            final(self).g.ent@ == old(self).g.ent@.update(m as int, e1),
            final(self).g == (Gen { ent: final(self).g.ent, ..old(self).g }),
            *final(self) == (World { g: final(self).g, ..*old(self) }),
    {
        let ghost g0 = self.g;
        self.g.ent.set(m, e1);
        proof {
            lemma_wf_same_classes(&g0, &self.g);
        }
    }

    /// Restamp token `m` of spell `spell` to `e1`, then run the
    /// cloak-break law of arming `spell`.
    #[verifier::spinoff_prover]
    pub fn stamp_and_break(&mut self, spell: usize, m: usize, e1: Ent)
        requires
            old(self).wf(),
            spell < 26,
            m < old(self).g.ent.len(),
            e1.class64 == old(self).g.ent[m as int].class64,
        ensures
            final(self).wf(),
            World::stamped_and_broken(old(self), final(self), m as int, e1, spell as int),
    {
        self.restamp_token(m, e1);
        self.mc2_arm_invis_break(spell);
    }

    /// The cast gate's decision (see [`Self::gate_spec`]).
    pub fn gate_decide(&self, spell: usize) -> (d: GateArm)
        requires
            self.wf(),
            spell < 26,
        ensures
            d == self.gate_spec(spell as int),
    {
        reveal(World::gate_spec);
        let m = self.mc2_book.ent[spell] as usize;
        if m == 0 || (spell == 25 && !self.g.is_cave()) {
            return GateArm::Refuse;
        }
        let armed = self.g.ent[m].f26 > 0;
        let tier = self.g.ent[m].f71;
        let md = self.g.ent[m].model65;
        if md == 0 && tier >= 2 && armed {
            GateArm::Refuse
        } else if md == 1 && armed {
            GateArm::Resignal
        } else if md == 2 && armed {
            GateArm::Buzz
        } else if md == 7 && tier >= 1 && armed {
            GateArm::Refuse
        } else if (md == 4 || md == 6 || md == 8 || md == 11 || md == 12 || md == 14) && armed {
            GateArm::Extend(if md == 4 { 7 } else { 1 })
        } else if (md == 9 || md == 10 || md == 13 || md == 15 || (16 <= md && md <= 24)) && armed {
            GateArm::Refuse
        } else if !self.dev_spells && (self.player.mana as u64) < self.g.ent[m].max_life as u64 {
            GateArm::Buzz
        } else {
            GateArm::Arm
        }
    }

    /// The cast gate for spell `spell` pressed on the `right` (or left)
    /// hand: the per-model re-arm switch on an active cast (fireball's
    /// charged tier and lightning's upper tiers refuse, possession
    /// raises its release signal, the castle buzzes, the channel
    /// spells extend their window — metamorph by 7 ticks, the others
    /// by 1 —, the rest refuse), then the mana gate (too little mana
    /// against the token's full cost buzzes, unless the all-spells
    /// instrument is on), then the arm: the window opens for the row's
    /// duration (at least one tick), the firing hand is recorded and
    /// a stale release signal cleared. Cave-In is refused off-cave.
    /// Possession's re-press and the arm run the cloak-break law.
    #[verifier::spinoff_prover]
    #[verifier::rlimit(60)]
    pub fn mc2_cast_gate(&mut self, spell: usize, right: bool)
        requires
            old(self).wf(),
            spell < 26,
        ensures
            final(self).wf(),
            World::gate_rel(old(self), final(self), spell as int, right),
    {
        let hand: u16 = if right { 512 } else { 256 };
        match self.gate_decide(spell) {
            GateArm::Refuse => {},
            GateArm::Buzz => {
                self.g.snd_player(29);
            },
            GateArm::Extend(v) => {
                let m = self.mc2_book.ent[spell] as usize;
                let e = self.g.ent[m];
                self.restamp_token(m, Ent { f26: v, ..e });
            },
            GateArm::Resignal => {
                let m = self.mc2_book.ent[spell] as usize;
                let e = self.g.ent[m];
                self.stamp_and_break(spell, m, Ent { f56: 1, f50: hand, ..e });
            },
            GateArm::Arm => {
                let m = self.mc2_book.ent[spell] as usize;
                let e = self.g.ent[m];
                let dur: i16 = (if e.f28 > 1 { e.f28 } else { 1 }) as i16;
                self.stamp_and_break(spell, m, Ent { f26: dur, f50: hand, f56: 0, ..e });
            },
        }
    }

    /// Does a press state fire spell `spell` (bound to a hand, −1 =
    /// none): a press edge, or a held button on a rapid tier (its
    /// click-only byte is not 1) while its window is open?
    pub open spec fn fires_spec(&self, spell: i8, edge: bool, held: bool) -> bool {
        spell >= 0 && self.mc2_book.ent[spell as int] != 0 && (edge || (held
            && self.g.ent[self.mc2_book.ent[spell as int] as int].f59 != 1
            && self.g.ent[self.mc2_book.ent[spell as int] as int].f26 > 0))
    }

    /// Does a press state fire the hand's spell (see [`Self::fires_spec`])?
    pub fn mc2_fires(&self, spell: i8, edge: bool, held: bool) -> (b: bool)
        requires
            self.wf(),
            spell < 26,
        ensures
            b == self.fires_spec(spell, edge, held),
    {
        if spell < 0 {
            return false;
        }
        let m = self.mc2_book.ent[spell as usize] as usize;
        if m == 0 {
            return false;
        }
        edge || (held && self.g.ent[m].f59 != 1 && self.g.ent[m].f26 > 0)
    }

    /// The per-button cast dispatch: while the human lives, the left
    /// hand's spell goes through the cast gate when its press state
    /// fires, then the right hand's (judged on the world the left press
    /// left). Press edges fire once per click; a held button refires
    /// only a rapid tier with its window open.
    #[verifier::spinoff_prover]
    pub fn mc2_cast_input(&mut self, edge: (bool, bool), held: (bool, bool))
        requires
            old(self).wf(),
        ensures
            final(self).wf(),
            old(self).player.state != LifeState::Alive ==> *final(self) == *old(self),
            old(self).player.state == LifeState::Alive ==> exists|w1: World|
                #![trigger w1.fires_spec(w1.mc2_book.right, edge.1, held.1)]
            {
                &&& (if old(self).fires_spec(old(self).mc2_book.left, edge.0, held.0) {
                    World::gate_rel(old(self), &w1, old(self).mc2_book.left as int, false)
                } else {
                    w1 == *old(self)
                })
                &&& (if w1.fires_spec(w1.mc2_book.right, edge.1, held.1) {
                    World::gate_rel(&w1, final(self), w1.mc2_book.right as int, true)
                } else {
                    *final(self) == w1
                })
            },
    {
        if self.player.state != LifeState::Alive {
            return;
        }
        let left = self.mc2_book.left;
        if self.mc2_fires(left, edge.0, held.0) {
            self.mc2_cast_gate(left as usize, false);
        }
        let ghost w1 = *self;
        let right = self.mc2_book.right;
        if self.mc2_fires(right, edge.1, held.1) {
            self.mc2_cast_gate(right as usize, true);
        }
        proof {
            assert({
                &&& (if old(self).fires_spec(old(self).mc2_book.left, edge.0, held.0) {
                    World::gate_rel(old(self), &w1, old(self).mc2_book.left as int, false)
                } else {
                    w1 == *old(self)
                })
                &&& (if w1.fires_spec(w1.mc2_book.right, edge.1, held.1) {
                    World::gate_rel(&w1, self, w1.mc2_book.right as int, true)
                } else {
                    *self == w1
                })
            });
        }
    }
}

impl World {
    /// The spell on hand `hand` (1 = right, else left), −1 = none.
    pub open spec fn hand_spell(&self, hand: u8) -> i8 {
        if hand == 1 { self.mc2_book.right } else { self.mc2_book.left }
    }

    /// Does the wraith's theft of hand `hand`'s spell land: a bound
    /// spell with a token that is out of its re-steal lock?
    pub open spec fn steal_lands(&self, hand: u8) -> bool {
        let sp = self.hand_spell(hand);
        sp >= 0 && self.mc2_book.ent[sp as int] != 0 && self.g.ent[self.mc2_book.ent[sp as int] as int].f54 == 0
    }

    /// The wraith steals the spell on hand `hand` (1 = right, else
    /// left): its token becomes the wraith's carried jar (action 78,
    /// the carrier recorded, the window closed) snapped onto the human,
    /// the spell is unlearned (book entry and token bit cleared), every
    /// hand holding it is unbound, and the token remembers the last
    /// hand cleared (2 = left, 1 = right, 0 = none). The tier and XP
    /// stay. Nothing happens on an empty hand, a token-less spell or a
    /// token still in its re-steal lock.
    pub fn mc2_spell_steal(&mut self, wraith: u16, hand: u8)
        requires
            old(self).wf(),
        ensures
            final(self).wf(),
            !old(self).steal_lands(hand) ==> *final(self) == *old(self),
            old(self).steal_lands(hand) ==> ({
                let sp = old(self).hand_spell(hand);
                let s = sp as int;
                let m = old(self).mc2_book.ent[s] as int;
                let b = old(self).mc2_book;
                let hint: u16 = if b.left == sp { 2 } else if b.right == sp { 1 } else { 0 };
                &&& final(self).g.ent@ == old(self).g.ent@.update(m, Ent {
                    f38: wraith,
                    tick70: 78,
                    f26: 0,
                    x: old(self).human_pose.0,
                    y: old(self).human_pose.1,
                    z: old(self).human_pose.2,
                    f36: hint,
                    ..old(self).g.ent[m]
                })
                &&& final(self).g.mc2_spell_tokens == old(self).g.mc2_spell_tokens & !(1u32 << (sp as u32))
                &&& final(self).g == (Gen { ent: final(self).g.ent, mc2_spell_tokens: final(self).g.mc2_spell_tokens, ..old(self).g })
                &&& final(self).mc2_book.ent@ == b.ent@.update(s, 0u16)
                &&& final(self).mc2_book.left == (if b.left == sp { -1i8 } else { b.left })
                &&& final(self).mc2_book.right == (if b.right == sp { -1i8 } else { b.right })
                &&& final(self).mc2_book == (Mc2Spellbook {
                    ent: final(self).mc2_book.ent,
                    left: final(self).mc2_book.left,
                    right: final(self).mc2_book.right,
                    ..b
                })
                &&& final(self).entities_dirty
                &&& *final(self) == (World { g: final(self).g, mc2_book: final(self).mc2_book, entities_dirty: true, ..*old(self) })
            }),
    {
        let sp = if hand == 1 { self.mc2_book.right } else { self.mc2_book.left };
        if sp < 0 {
            return;
        }
        let s = sp as usize;
        let m = self.mc2_book.ent[s] as usize;
        if m == 0 {
            return;
        }
        if self.g.ent[m].f54 != 0 {
            return;
        }
        let (px, py, pz) = self.human_pose;
        let hint: u16 = if self.mc2_book.left == sp { 2 } else if self.mc2_book.right == sp { 1 } else { 0 };
        let e = self.g.ent[m];
        self.restamp_token(m, Ent { f38: wraith, tick70: 78, f26: 0, x: px, y: py, z: pz, f36: hint, ..e });
        self.mc2_book.ent[s] = 0;
        self.g.mc2_spell_tokens = self.g.mc2_spell_tokens & !(1u32 << (s as u32));
        if self.mc2_book.right == sp {
            self.mc2_book.right = -1;
        }
        if self.mc2_book.left == sp {
            self.mc2_book.left = -1;
        }
        self.entities_dirty = true;
        proof {
            assert(self.mc2_book.ent@ =~= old(self).mc2_book.ent@.update(s as int, 0u16));
        }
    }
}

/// The human's record after spell `spell`'s window closes: the armed
/// channels end with it (shield, rebound, cloak, sight, heal, the
/// speed boost, the metamorph disguise).
pub open spec fn expire_player(p: Player, spell: int) -> Player {
    if spell == 6 {
        Player { shield: false, ..p }
    } else if spell == 8 {
        Player { rebound: false, ..p }
    } else if spell == 4 {
        Player { metamorph: 0, ..p }
    } else if spell == 11 {
        Player { invisible: false, invis_strength: 0, ..p }
    } else if spell == 12 {
        Player { beyond_sight: false, ..p }
    } else if spell == 5 {
        Player { heal_active: false, ..p }
    } else if spell == 3 {
        Player { accel: 0, accel_mc2_factor: 0, ..p }
    } else {
        p
    }
}

impl World {
    /// The pool after token `m` of spell `spell` expires: a pending
    /// tier (f44 = tier + 1) is applied through `SetSpell` and cleared;
    /// the metamorph expiry reaps its creature (a live class-5 record
    /// on the token's link) and clears the link.
    pub open spec fn expire_ents(&self, spell: int, m: int) -> Seq<Ent> {
        let e0 = self.g.ent[m];
        let s1 = if e0.f44 > 0 {
            self.g.ent@.update(m, self.set_spell_spec(Ent { f44: 0, ..e0 }, (e0.f44 - 1) as u8))
        } else {
            self.g.ent@
        };
        if spell == 4 {
            unlink_ents(s1, m)
        } else {
            s1
        }
    }

    /// Apply token `m`'s pending tier (f44 = tier + 1), clearing it;
    /// nothing when none is pending.
    #[verifier::spinoff_prover]
    pub fn apply_pending_tier(&mut self, m: usize)
        requires
            old(self).wf(),
            m < old(self).g.ent.len(),
        ensures
            final(self).wf(),
            ({
                let e0 = old(self).g.ent[m as int];
                final(self).g.ent@ == (if e0.f44 > 0 {
                    old(self).g.ent@.update(m as int, old(self).set_spell_spec(Ent { f44: 0, ..e0 }, (e0.f44 - 1) as u8))
                } else {
                    old(self).g.ent@
                })
            }),
            final(self).g.free == old(self).g.free,
            final(self).g == (Gen { ent: final(self).g.ent, ..old(self).g }),
            final(self).mc2_book == old(self).mc2_book,
            final(self).player == old(self).player,
            final(self).notification == old(self).notification,
            final(self).entities_dirty == old(self).entities_dirty,
            final(self).mc2_duel == old(self).mc2_duel,
            final(self).pending_speed_zero == old(self).pending_speed_zero,
            final(self).keeps_rest(old(self)),
    {
        let e0 = self.g.ent[m];
        if e0.f44 > 0 {
            let t = (e0.f44 - 1) as u8;
            let r = self.set_spell_value(Ent { f44: 0, ..e0 }, t);
            let ghost g0 = self.g;
            self.g.ent.set(m, r);
            proof {
                lemma_wf_same_classes(&g0, &self.g);
            }
        }
    }

    /// The cast window of spell `spell` (token `m`) closes: the pending
    /// tier is applied, the armed channels end (see [`expire_player`];
    /// rebound also drops its precise-law bit), the duel lock dissolves,
    /// the metamorph creature is reaped with sound 60, and teleport
    /// repeats its flight-speed zero.
    #[verifier::spinoff_prover]
    #[verifier::rlimit(60)]
    pub fn mc2_cast_expire(&mut self, spell: usize, m: usize)
        requires
            old(self).wf(),
            m < old(self).g.ent.len(),
        ensures
            final(self).wf(),
            final(self).g.ent@ == old(self).expire_ents(spell as int, m as int),
            final(self).player == expire_player(old(self).player, spell as int),
            final(self).g.sounds@ == (if spell == 4 { old(self).g.sounds@.push((60u8, PLAYER_TARGET)) } else { old(self).g.sounds@ }),
            final(self).g.mc2_rebound_precise == (if spell == 8 { 0 } else { old(self).g.mc2_rebound_precise }),
            final(self).mc2_duel == (if spell == 14 { None } else { old(self).mc2_duel }),
            final(self).pending_speed_zero == (spell == 10 || old(self).pending_speed_zero),
            final(self).g.free == old(self).g.free,
            final(self).g.keeps_world_but_rebound(&old(self).g),
            final(self).mc2_book == old(self).mc2_book,
            final(self).notification == old(self).notification,
            final(self).entities_dirty == old(self).entities_dirty,
            final(self).keeps_rest(old(self)),
    {
        self.apply_pending_tier(m);
        if spell == 4 {
            self.metamorph_teardown(m);
        } else {
            self.expire_channels(spell);
        }
    }

    /// The metamorph teardown: the token's creature (a live class-5
    /// record on its link) is reaped, the link cleared, the carpet shown
    /// again, sound 60.
    #[verifier::spinoff_prover]
    pub fn metamorph_teardown(&mut self, m: usize)
        requires
            old(self).wf(),
            m < old(self).g.ent.len(),
        ensures
            final(self).wf(),
            final(self).g.ent@ == unlink_ents(old(self).g.ent@, m as int),
            final(self).player == (Player { metamorph: 0, ..old(self).player }),
            final(self).g.sounds@ == old(self).g.sounds@.push((60u8, PLAYER_TARGET)),
            final(self).g.free == old(self).g.free,
            final(self).g.keeps_world(&old(self).g),
            final(self).mc2_book == old(self).mc2_book,
            final(self).notification == old(self).notification,
            final(self).entities_dirty == old(self).entities_dirty,
            final(self).keeps_rest(old(self)),
            final(self).mc2_duel == old(self).mc2_duel,
            final(self).pending_speed_zero == old(self).pending_speed_zero,
    {
        self.g.unlink_creature(m);
        self.player.metamorph = 0;
        self.g.snd_player(60);
    }

    /// The armed channels of spell `spell` end with its window (see
    /// [`expire_player`]); rebound drops its precise-law bit, the duel
    /// dissolves, teleport repeats its flight-speed zero.
    #[verifier::spinoff_prover]
    #[verifier::rlimit(60)]
    pub fn expire_channels(&mut self, spell: usize)
        requires
            old(self).wf(),
            spell != 4,
        ensures
            final(self).wf(),
            final(self).player == expire_player(old(self).player, spell as int),
            final(self).g.mc2_rebound_precise == (if spell == 8 { 0 } else { old(self).g.mc2_rebound_precise }),
            final(self).mc2_duel == (if spell == 14 { None } else { old(self).mc2_duel }),
            final(self).pending_speed_zero == (spell == 10 || old(self).pending_speed_zero),
            final(self).g == (Gen { mc2_rebound_precise: final(self).g.mc2_rebound_precise, ..old(self).g }),
            final(self).mc2_book == old(self).mc2_book,
            final(self).notification == old(self).notification,
            final(self).entities_dirty == old(self).entities_dirty,
            final(self).keeps_rest(old(self)),
    {
        if spell == 6 {
            self.player.shield = false;
        } else if spell == 8 {
            self.player.rebound = false;
            self.g.mc2_rebound_precise = 0;
        } else if spell == 14 {
            self.mc2_duel = None;
        } else if spell == 11 {
            self.player.invisible = false;
            self.player.invis_strength = 0;
        } else if spell == 12 {
            self.player.beyond_sight = false;
        } else if spell == 5 {
            self.player.heal_active = false;
        } else if spell == 3 {
            self.player.accel = 0;
            self.player.accel_mc2_factor = 0;
        } else if spell == 10 {
            self.pending_speed_zero = true;
        }
    }
}

/// The pool after token `m`'s metamorph link is torn down: a live
/// class-5 record on the link is reaped, then the link cleared.
pub open spec fn unlink_ents(s1: Seq<Ent>, m: int) -> Seq<Ent> {
    let c = s1[m].f146 as int;
    let s2 = if c != 0 && c < s1.len() && s1[c].class64 == 5 {
        s1.update(c, Ent { flags: s1[c].flags | 0x400, ..s1[c] })
    } else {
        s1
    };
    s2.update(m, Ent { f146: 0, ..s2[m] })
}

impl Gen {
    /// Tear down token `m`'s metamorph link (see [`unlink_ents`]).
    pub fn unlink_creature(&mut self, m: usize)
        requires
            old(self).wf(),
            m < old(self).ent.len(),
        ensures
            final(self).wf(),
            final(self).ent@ == unlink_ents(old(self).ent@, m as int),
            final(self).free == old(self).free,
            final(self).sounds == old(self).sounds,
            final(self).keeps_world(old(self)),
    {
        let c = self.ent[m].f146 as usize;
        let ghost s1 = self.ent@;
        if c != 0 && c < self.ent.len() && self.ent[c].class64 == 5 {
            let ghost g0 = *self;
            let mut ec = self.ent[c];
            ec.flags = ec.flags | 0x400;
            self.ent.set(c, ec);
            proof {
                lemma_wf_same_classes(&g0, self);
            }
        }
        let ghost g1 = *self;
        let mut em = self.ent[m];
        em.f146 = 0;
        self.ent.set(m, em);
        proof {
            lemma_wf_same_classes(&g1, self);
        }
    }
}

/// The two hand muzzle points a cast launches from (the chassis places
/// them off the carpet pose).
#[derive(Clone, Copy)]
pub struct Muzzles {
    pub left: (u16, u16, i16),
    pub right: (u16, u16, i16),
}

/// The launch stamps on a freshly created projectile `e`: the human's
/// tag, the impact, the tier payload (clamped to 16 bits), the charge
/// byte when the arm carries it, the launch angles from the pose, the
/// pose's forward speed added to the base speed and clamped to
/// 384..=0x2000, the token's mana, the spell index as the XP back-ref,
/// and the fireball's star sprite.
pub open spec fn launch_stamp(e: Ent, spell: int, arm: DispatchArm, sub: SubSpell, p: PlayerPose, mana: i32) -> Ent {
    let boosted = e.f126 + (if p.speed > 0 { p.speed as int } else { 0 });
    let sp = if boosted < 384 { 384 } else if boosted > 0x2000 { 0x2000 } else { boosted };
    let e1 = Ent {
        id24: PLAYER_TARGET,
        f68: arm.impact.0,
        f69: arm.impact.1,
        f44: (if sub.sub_spell < 0 { 0 } else if sub.sub_spell > 0xFFFF { 0xFFFF } else { sub.sub_spell }) as u16,
        f71: if arm.charge { (if sub.life > 0 { sub.life as u8 } else { 0u8 }) } else { e.f71 },
        f30: p.heading,
        pitch32: p.pitch,
        f34: p.heading,
        f36: p.pitch,
        f126: sp as i16,
        f140: mana,
        f40: spell as u16,
        ..e
    };
    if spell == 0 {
        Ent { type86: 42, frame88: 0, ..e1 }
    } else {
        e1
    }
}

/// The muzzle of the hand token `m` fired from (f50 = 512: right).
pub open spec fn muzzle_of(g: &Gen, m: int, mz: Muzzles) -> (u16, u16, i16) {
    if g.ent[m].f50 == 512 { mz.right } else { mz.left }
}

/// `b` is `a` after launching spell `spell`'s arm from token `m` with
/// result `r`: a new projectile at the firing hand's muzzle, stamped
/// (see [`launch_stamp`]) — or, with an unknown subtype or a full
/// pool, nothing.
pub open spec fn launched(a: &Gen, b: &Gen, spell: int, m: int, arm: DispatchArm, sub: SubSpell, p: PlayerPose, mz: Muzzles, r: Option<usize>) -> bool {
    let (mx, my, mzz) = muzzle_of(a, m, mz);
    &&& b.keeps_world(a)
    &&& match r {
        Some(i) => {
            &&& creator_spec(arm.subtype).is_some()
            &&& a.free.len() > 0
            &&& i == a.free@.last()
            &&& 1 <= i < b.ent.len()
            &&& b.free@ == a.free@.drop_last()
            &&& b.ent@ == a.ent@.update(
                i as int,
                launch_stamp(
                    cast_proj_spec(a, i as int, creator_spec(arm.subtype).unwrap(), mx, my, mzz),
                    spell,
                    arm,
                    sub,
                    p,
                    a.ent[m].f140,
                ),
            )
        },
        None => {
            &&& (creator_spec(arm.subtype).is_none() || a.free.len() == 0)
            &&& b.free@ == a.free@
            &&& b.ent == a.ent
        },
    }
}

impl World {
    /// Launch the projectile of spell `spell`'s arm from token `m` (see
    /// [`launched`]); the slot of the new projectile, None when there
    /// was none.
    #[verifier::spinoff_prover]
    #[verifier::rlimit(40)]
    pub fn mc2_launch(&mut self, spell: usize, m: usize, arm: DispatchArm, sub: SubSpell, p: PlayerPose, mz: Muzzles) -> (r: Option<usize>)
        requires
            old(self).wf(),
            m < old(self).g.ent.len(),
            spell < 26,
            arm.subtype == 1 ==> 5 * (ext_of(&old(self).g, 209).1 as int / 2) <= 0xFFFF,
        ensures
            final(self).wf(),
            launched(&old(self).g, &final(self).g, spell as int, m as int, arm, sub, p, mz, r),
            final(self).g.sounds == old(self).g.sounds,
            final(self).mc2_book == old(self).mc2_book,
            final(self).player == old(self).player,
            final(self).notification == old(self).notification,
            final(self).entities_dirty == old(self).entities_dirty,
            final(self).mc2_duel == old(self).mc2_duel,
            final(self).pending_speed_zero == old(self).pending_speed_zero,
            final(self).keeps_rest(old(self)),
    {
        let (mx, my, mzz) = if self.g.ent[m].f50 == 512 { mz.right } else { mz.left };
        let mana = self.g.ent[m].f140;
        let i = match self.g.mc2_spawn_cast_proj(arm.subtype, mx, my, mzz) {
            Some(i) => i,
            None => return None,
        };
        let e = self.g.ent[i];
        let boosted: i32 = e.f126 as i32 + (if p.speed > 0 { p.speed as i32 } else { 0 });
        let sp: i32 = if boosted < 384 { 384 } else if boosted > 0x2000 { 0x2000 } else { boosted };
        let payload: u16 = (if sub.sub_spell < 0 { 0 } else if sub.sub_spell > 0xFFFF { 0xFFFF } else { sub.sub_spell }) as u16;
        let charge: u8 = if arm.charge { if sub.life > 0 { sub.life as u8 } else { 0 } } else { e.f71 };
        let e1 = Ent {
            id24: PLAYER_TARGET,
            f68: arm.impact.0,
            f69: arm.impact.1,
            f44: payload,
            f71: charge,
            f30: p.heading,
            pitch32: p.pitch,
            f34: p.heading,
            f36: p.pitch,
            f126: sp as i16,
            f140: mana,
            f40: spell as u16,
            ..e
        };
        let e2 = if spell == 0 { Ent { type86: 42, frame88: 0, ..e1 } } else { e1 };
        let ghost g0 = self.g;
        self.g.ent.set(i, e2);
        proof {
            lemma_wf_same_classes(&g0, &self.g);
            assert(self.g.ent@ =~= old(self).g.ent@.update(
                i as int,
                launch_stamp(
                    cast_proj_spec(&old(self).g, i as int, creator_spec(arm.subtype).unwrap(), mx, my, mzz),
                    spell as int,
                    arm,
                    sub,
                    p,
                    old(self).g.ent[m as int].f140,
                ),
            ));
        }
        Some(i)
    }
}

/// The (10,26) duel tether the duel cast leaves at (x, y, z): life 8,
/// the grip amount 200, the tier, the human as owner, sprite row 284.
pub open spec fn tether_spec(g: &Gen, t: int, tier: u8, x: u16, y: u16, z: i16) -> Ent {
    let f = fresh_ent(t);
    let (s6, r8) = ext_of(g, 284);
    Ent {
        class64: 10,
        model65: 26,
        tick70: 26,
        max_life: 8,
        act_life: 8,
        f44: 200,
        f71: tier,
        id24: PLAYER_TARGET,
        flags: f.flags & !8u32,
        x,
        y,
        z,
        type86: 284,
        frame88: 0,
        f78: r8 / 2,
        f80: s6 / 2,
        f82: s6 / 2,
        f84: r8 / 2,
        ..f
    }
}

impl Gen {
    /// Spawn the duel tether (see [`tether_spec`]).
    pub fn mc2_spawn_tether(&mut self, tier: u8, x: u16, y: u16, z: i16) -> (r: Option<usize>)
        requires
            old(self).wf(),
        ensures
            final(self).wf(),
            final(self).keeps_world(old(self)),
            final(self).sounds == old(self).sounds,
            match r {
                Some(t) => {
                    &&& old(self).free.len() > 0
                    &&& t == old(self).free@.last()
                    &&& final(self).free@ == old(self).free@.drop_last()
                    &&& final(self).ent@ == old(self).ent@.update(t as int, tether_spec(old(self), t as int, tier, x, y, z))
                },
                None => {
                    &&& old(self).free.len() == 0
                    &&& final(self).free@ == old(self).free@
                    &&& final(self).ent == old(self).ent
                },
            },
    {
        let t = match self.new_event() {
            Some(t) => t,
            None => return None,
        };
        self.ent[t].class64 = 10;
        self.ent[t].model65 = 26;
        self.ent[t].tick70 = 26;
        self.ent[t].max_life = 8;
        self.ent[t].f44 = 200;
        self.ent[t].f71 = tier;
        self.ent[t].id24 = PLAYER_TARGET;
        self.ent[t].flags = self.ent[t].flags & !8u32;
        self.link(t, x, y, z);
        self.refill_life(t);
        self.mc2_set_sprite(t, 284);
        assert(self.ent@ =~= old(self).ent@.update(t as int, tether_spec(old(self), t as int, tier, x, y, z)));
        Some(t)
    }
}

impl World {
    /// The duel cast: the (10,26) tether at the human on the ground,
    /// carrying the duel spell's selected tier (see [`tether_spec`]),
    /// then sound 9 (also with a full pool).
    pub fn mc2_cast_duel(&mut self, p: PlayerPose)
        requires
            old(self).wf(),
        ensures
            final(self).wf(),
            duel_rel(old(self), final(self), p),

    {
        let tier = self.mc2_book.sel[14];
        let z = self.g.ground_z(p.x, p.y) as i16;
        let _ = self.g.mc2_spawn_tether(tier, p.x, p.y, z);
        self.g.snd_player(9);
    }

    /// The level-start book floor: fireball (0) and possession (1), each
    /// minted as a token at the human and adopted when not yet learned
    /// (its token bit set); then the hands bind canonically (see
    /// [`canonical_hands`]). A spell stays unlearned only when the pool
    /// is full.
    #[verifier::spinoff_prover]
    #[verifier::rlimit(40)]
    pub fn mc2_seed_default_spells(&mut self)
        requires
            old(self).wf(),
            old(self).g.ent.len() <= 0x10000,
            xp_ok(old(self).mc2_book, 0),
            xp_ok(old(self).mc2_book, 1),
        ensures
            final(self).wf(),
            forall|s: int| 0 <= s < 2 ==> (#[trigger] final(self).mc2_book.ent[s] != 0 || final(self).g.free.len() == 0),
            forall|s: int| 0 <= s < 26 && old(self).mc2_book.ent[s] != 0 ==> #[trigger] final(self).mc2_book.ent[s] == old(self).mc2_book.ent[s],
            forall|s: int| 2 <= s < 26 ==> #[trigger] final(self).mc2_book.ent[s] == old(self).mc2_book.ent[s],
            (final(self).mc2_book.left, final(self).mc2_book.right) == canonical_hands(final(self).mc2_book),
            final(self).player == old(self).player,
            final(self).keeps_rest(old(self)),
    {
        let mut s: usize = 0;
        while s < 2
            invariant
                s <= 2,
                self.wf(),
                self.g.ent.len() == old(self).g.ent.len(),
                self.g.ent.len() <= 0x10000,
                self.player == old(self).player,
                self.keeps_rest(old(self)),
                s == 0 ==> xp_ok(self.mc2_book, 0),
                s <= 1 ==> xp_ok(self.mc2_book, 1),
                forall|q: int| 0 <= q < s ==> (#[trigger] self.mc2_book.ent[q] != 0 || self.g.free.len() == 0),
                forall|q: int| 0 <= q < 26 && old(self).mc2_book.ent[q] != 0 ==> #[trigger] self.mc2_book.ent[q] == old(self).mc2_book.ent[q],
                forall|q: int| 2 <= q < 26 ==> #[trigger] self.mc2_book.ent[q] == old(self).mc2_book.ent[q],
                forall|q: int| s <= q < 2 ==> #[trigger] self.mc2_book.ent[q] == old(self).mc2_book.ent[q],
            decreases 2 - s,
        {
            if self.mc2_book.ent[s] == 0 {
                let (px, py, pz) = self.human_pose;
                match self.g.mc2_spawn_spell_token(s as u8, px, py, pz) {
                    Some(m) => {
                        self.mc2_adopt_manifestation(m, s);
                        self.g.mc2_spell_tokens = self.g.mc2_spell_tokens | (1u32 << (s as u32));
                        proof {
                            assert(self.mc2_book.ent[s as int] == m as u16);
                        }
                    },
                    None => {},
                }
            }
            s = s + 1;
        }
        let ghost b = self.mc2_book;
        self.mc2_rebind_hands_canonical();
        proof {
            lemma_canonical_hands_same(b, self.mc2_book);
        }
    }
}

/// The projectile band's effect on `a` (see [`World::mc2_fire_projectiles`]).
pub open spec fn proj_rel(a: &World, b: &World, spell: usize, m: usize, arm: DispatchArm, sub: SubSpell, p: PlayerPose, mz: Muzzles) -> bool {
    &&& ({
        let o = &a.g;
        let n = o.free.len() as int;
        let ok = creator_spec(arm.subtype).is_some();
        let fan = spell == 7 && sub.life == 2;
        let k: int = if !ok { 0 } else if fan { if n < 2 { n } else { 2 } } else { if n < 1 { n } else { 1 } };
        let v6 = cast_sound(spell as int, sub.life);
        let y1: Option<u16> = if fan { Some(((p.heading + 113) % 2048) as u16) } else { None };
        let y2: Option<u16> = Some(((p.heading + 1935) % 2048) as u16);
        &&& b.g.free@ == o.free@.subrange(0, n - k)
        &&& k == 0 ==> b.g.ent == o.ent && b.g.sounds == o.sounds
        &&& k == 1 ==> {
            let i1 = o.free@[n - 1] as int;
            &&& b.g.ent@ == o.ent@.update(i1, proj_rec(o, spell as int, m as int, arm, sub, p, mz, i1, y1, None))
            &&& b.g.sounds@ == o.sounds@.push((v6, PLAYER_TARGET))
        }
        &&& k == 2 ==> {
            let i1 = o.free@[n - 1] as int;
            let i2 = o.free@[n - 2] as int;
            &&& b.g.ent@ == o.ent@.update(i1, proj_rec(o, spell as int, m as int, arm, sub, p, mz, i1, y1, Some(i2 as u16)))
                .update(i2, proj_rec(o, spell as int, m as int, arm, sub, p, mz, i2, y2, Some(i1 as u16)))
            &&& b.g.sounds@ == o.sounds@.push((v6, PLAYER_TARGET)).push((v6, PLAYER_TARGET))
        }
    })
    &&& b.g.keeps_world(&a.g)
    &&& b.mc2_book == a.mc2_book
    &&& b.player == a.player
    &&& b.notification == a.notification
    &&& b.entities_dirty == a.entities_dirty
    &&& b.mc2_duel == a.mc2_duel
    &&& b.pending_speed_zero == a.pending_speed_zero
    &&& b.keeps_rest(a)
}

/// The possession cast's effect on `a` (see [`World::mc2_fire_possess`]).
pub open spec fn possess_rel(a: &World, b: &World, m: usize, sub: SubSpell, life: i8, p: PlayerPose, mz: Muzzles) -> bool {
    &&& ({
        let o = &a.g;
        match possess_arm(life) {
            Some(arm) => if creator_spec(arm.subtype).is_some() && o.free.len() > 0 {
                let i = o.free@.last() as int;
                &&& b.g.free@ == o.free@.drop_last()
                &&& b.g.ent@ == o.ent@.update(i, possess_finish(
                    proj_rec(o, 1, m as int, arm, sub, p, mz, i, None, None),
                    arm.subtype,
                    o.ent[m as int].f30,
                    p,
                ))
                &&& b.g.sounds@ == o.sounds@.push((40u8, PLAYER_TARGET))
            } else {
                b.g.free@ == o.free@ && b.g.ent == o.ent && b.g.sounds == o.sounds
            },
            None => b.g.free@ == o.free@ && b.g.ent == o.ent && b.g.sounds == o.sounds,
        }
    })
    &&& b.g.keeps_world(&a.g)
    &&& b.mc2_book == a.mc2_book
    &&& b.player == a.player
    &&& b.notification == a.notification
    &&& b.entities_dirty == a.entities_dirty
    &&& b.mc2_duel == a.mc2_duel
    &&& b.pending_speed_zero == a.pending_speed_zero
    &&& b.keeps_rest(a)
}

/// The duel cast's effect on `a` (see [`World::mc2_cast_duel`]).
pub open spec fn duel_rel(a: &World, b: &World, p: PlayerPose) -> bool {
    &&& ({
        let z = a.g.ground_spec(p.x, p.y) as i16;
        let tier = a.mc2_book.sel[14];
        ||| (a.g.free.len() > 0 && b.g.free@ == a.g.free@.drop_last()
            && b.g.ent@ == a.g.ent@.update(
            a.g.free@.last() as int,
            tether_spec(&a.g, a.g.free@.last() as int, tier, p.x, p.y, z),
        ))
        ||| (a.g.free.len() == 0 && b.g.free@ == a.g.free@ && b.g.ent == a.g.ent)
    })
    &&& b.g.sounds@ == a.g.sounds@.push((9u8, PLAYER_TARGET))
    &&& b.g.keeps_world(&a.g)
    &&& b.mc2_book == a.mc2_book
    &&& b.player == a.player
    &&& b.notification == a.notification
    &&& b.entities_dirty == a.entities_dirty
    &&& b.mc2_duel == a.mc2_duel
    &&& b.pending_speed_zero == a.pending_speed_zero
    &&& b.keeps_rest(a)
}

/// The cast sound of a projectile spell: fireball 9, charged lightning
/// 9, plain lightning 23, the rest 15.
pub open spec fn cast_sound(spell: int, life: i8) -> u8 {
    if spell == 0 {
        9
    } else if spell == 7 && (life == 1 || life == 2) {
        9
    } else if spell == 7 {
        23
    } else {
        15
    }
}

/// The projectile record launched into slot `i` (see [`launch_stamp`]),
/// with the fan yaw and the twin link when given.
pub open spec fn proj_rec(g: &Gen, spell: int, m: int, arm: DispatchArm, sub: SubSpell, p: PlayerPose, mz: Muzzles, i: int, yaw: Option<u16>, twin: Option<u16>) -> Ent {
    let (mx, my, mzz) = muzzle_of(g, m, mz);
    let e = launch_stamp(cast_proj_spec(g, i, creator_spec(arm.subtype).unwrap(), mx, my, mzz), spell, arm, sub, p, g.ent[m].f140);
    let e1 = match yaw {
        Some(y) => Ent { f30: y, f34: y, ..e },
        None => e,
    };
    match twin {
        Some(t) => Ent { f52: t, ..e1 },
        None => e1,
    }
}

impl World {
    /// The projectile band: launch the arm once — or, for the
    /// two-bolt lightning tier, twice, fanned 113 either side of the
    /// heading and cross-linked — each launch followed by the cast
    /// sound. A full pool or an unknown subtype launches fewer.
    #[verifier::spinoff_prover]
    #[verifier::rlimit(60)]
    pub fn mc2_fire_projectiles(&mut self, spell: usize, m: usize, arm: DispatchArm, sub: SubSpell, p: PlayerPose, mz: Muzzles)
        requires
            old(self).wf(),
            m < old(self).g.ent.len(),
            old(self).g.ent[m as int].class64 != 0,
            spell < 26,
            arm.subtype == 1 ==> 5 * (ext_of(&old(self).g, 209).1 as int / 2) <= 0xFFFF,
        ensures
            final(self).wf(),
            proj_rel(old(self), final(self), spell, m, arm, sub, p, mz),

    {
        let v6: u8 = if spell == 0 {
            9
        } else if spell == 7 && (sub.life == 1 || sub.life == 2) {
            9
        } else if spell == 7 {
            23
        } else {
            15
        };
        let fan = spell == 7 && sub.life == 2;
        let ghost o = self.g;
        proof {
            if o.free.len() > 0 {
                assert(o.ent[o.free@.last() as int].class64 == 0);
            }
        }
        let r1 = self.mc2_launch(spell, m, arm, sub, p, mz);
        let i1 = match r1 {
            Some(i) => i,
            None => {
                proof {
                    assert(self.g.free@ =~= o.free@.subrange(0, o.free.len() as int));
                }
                return;
            },
        };
        if fan {
            let yaw = ((p.heading as u32 + 113) % 2048) as u16;
            let ghost g0 = self.g;
            let mut e = self.g.ent[i1];
            e.f30 = yaw;
            e.f34 = yaw;
            self.g.ent.set(i1, e);
            proof {
                lemma_wf_same_classes(&g0, &self.g);
            }
        }
        self.g.snd_player(v6);
        if !fan {
            proof {
                assert(self.g.free@ =~= o.free@.subrange(0, o.free.len() - 1));
            }
            return;
        }
        let ghost o1 = self.g;
        proof {
            if o1.free.len() > 0 {
                assert(o1.ent[o1.free@.last() as int].class64 == 0);
                assert(o1.free@.last() == o.free@[o.free.len() - 2]);
            }
            assert(muzzle_of(&o1, m as int, mz) == muzzle_of(&o, m as int, mz));
        }
        let r2 = self.mc2_launch(spell, m, arm, sub, p, mz);
        let i2 = match r2 {
            Some(i) => i,
            None => {
                proof {
                    assert(self.g.free@ =~= o.free@.subrange(0, o.free.len() - 1));
                    assert(o.free.len() == 1);
                    assert(self.g.ent@ =~= o.ent@.update(
                        i1 as int,
                        proj_rec(&o, spell as int, m as int, arm, sub, p, mz, i1 as int, Some(((p.heading + 113) % 2048) as u16), None),
                    ));
                }
                return;
            },
        };
        let yaw2 = ((p.heading as u32 + 1935) % 2048) as u16;
        let ghost g2 = self.g;
        let mut e2 = self.g.ent[i2];
        e2.f30 = yaw2;
        e2.f34 = yaw2;
        e2.f52 = i1 as u16;
        self.g.ent.set(i2, e2);
        let mut e1 = self.g.ent[i1];
        e1.f52 = i2 as u16;
        self.g.ent.set(i1, e1);
        proof {
            lemma_wf_same_classes(&g2, &self.g);
        }
        self.g.snd_player(v6);
        proof {
            assert(self.g.free@ =~= o.free@.subrange(0, o.free.len() - 2));
            assert(self.g.ent@ =~= o.ent@.update(i1 as int, proj_rec(&o, spell as int, m as int, arm, sub, p, mz, i1 as int, Some(((p.heading + 113) % 2048) as u16), Some(i2 as u16)))
                .update(i2 as int, proj_rec(&o, spell as int, m as int, arm, sub, p, mz, i2 as int, Some(((p.heading + 1935) % 2048) as u16), Some(i1 as u16))));
        }
    }
}

/// The all-zero tier a spell without a SPELLS row casts with.
pub open spec fn zero_sub() -> SubSpell {
    SubSpell { mana_cost: 0, hint_text: 0, sub_spell: 0, word_0x18: 0, font_type: 0, max_mana_limit: 0, xpos1: 0, life: 0 }
}

/// The human's record after the first tick of a channel spell: speed
/// (3) latches the boost direction from the pose's speed sign, holds
/// it and takes the tier's factor (clamped to 1..=8); heal (5), shield
/// (6), rebound (8), cloak (11, strength = the tier's life clamped to
/// 0..=3) and sight (12) switch on.
pub open spec fn channel_player(pl: Player, spell: int, sub: SubSpell, p: PlayerPose) -> Player {
    if spell == 3 {
        Player {
            accel: if p.speed >= 0 { 1i8 } else { -1i8 },
            accel_held: true,
            accel_mc2_factor: (if sub.sub_spell < 1 { 1 } else if sub.sub_spell > 8 { 8 } else { sub.sub_spell }) as i8,
            ..pl
        }
    } else if spell == 5 {
        Player { heal_active: true, ..pl }
    } else if spell == 6 {
        Player { shield: true, ..pl }
    } else if spell == 8 {
        Player { rebound: true, ..pl }
    } else if spell == 11 {
        Player { invisible: true, invis_strength: (if sub.life < 0 { 0 } else if sub.life > 3 { 3 } else { sub.life }) as i8, ..pl }
    } else if spell == 12 {
        Player { beyond_sight: true, ..pl }
    } else {
        pl
    }
}

/// The channel spells.
pub open spec fn is_channel(spell: int) -> bool {
    spell == 3 || spell == 5 || spell == 6 || spell == 8 || spell == 11 || spell == 12
}

/// The channel spell's cast sound (none for shield, rebound, cloak and
/// sight).
pub open spec fn channel_sound(spell: int) -> Option<u8> {
    if spell == 3 { Some(19u8) } else if spell == 5 { Some(25u8) } else { None }
}

/// The possession arm of a tier of life byte `life`: the basic bolt
/// (subtype 1, plain claim) at life 0, the leveled bolt (subtype 17)
/// with the attract aura (10,54), the lock aura (10,69) or no aura at
/// life 1, 2, 3; nothing above.
pub open spec fn possess_arm(life: i8) -> Option<DispatchArm> {
    if life == 0 {
        Some(DispatchArm { subtype: 1, impact: (10, 12), charge: false })
    } else if life == 1 {
        Some(DispatchArm { subtype: 17, impact: (10, 54), charge: false })
    } else if life == 2 {
        Some(DispatchArm { subtype: 17, impact: (10, 69), charge: false })
    } else if life == 3 {
        Some(DispatchArm { subtype: 17, impact: (10, 0), charge: false })
    } else {
        None
    }
}

/// The possession bolt's finish on launched record `e`: the basic
/// bolt's timer 200 (the leveled bolt's the square of the token payload
/// · 256, truncated), and its speed 384 plus the raw carpet speed
/// (truncated to 16 bits).
pub open spec fn possess_finish(e: Ent, subtype: u8, token_sub: u16, p: PlayerPose) -> Ent {
    let v = token_sub as int * 256;
    Ent {
        f26: if subtype == 1 { 200 } else { (v * v) as i16 },
        f126: (384 + p.speed as int) as i16,
        ..e
    }
}

/// What the first cast tick leaves for the chassis to run: nothing, or
/// one of the engine routines the spell's effect rests on — the castle
/// ball cast (then sound 15), the teleport relocation, the metamorph
/// creature of the given model (to bind with
/// [`World::mc2_metamorph_bind`]), or the Fool's-Mana burst of the
/// given tier (sound 11 when any sphere spawned).
pub enum FireRequest {
    Done,
    CastCastle,
    Teleport,
    Metamorph(u8),
    FoolsMana(SubSpell),
}

impl World {
    /// The tier a cast of `spell` from token `m` fires with: the row's
    /// tier at the token's live tier (at most 2), the all-zero tier
    /// without a row; spells 21 and 25 divide the payload by a positive
    /// charge (truncating).
    pub open spec fn fire_sub(&self, spell: int, m: int) -> SubSpell {
        let tier = self.g.ent[m].f71 as int;
        let ti = if tier > 2 { 2 } else { tier };
        let sub = if 0 <= spell < self.g.assets.spells.len() { self.g.assets.spells[spell].tiers[ti] } else { zero_sub() };
        if (spell == 21 || spell == 25) && sub.life > 0 {
            SubSpell { sub_spell: tdiv(sub.sub_spell as int, sub.life as int) as i32, ..sub }
        } else {
            sub
        }
    }

    /// The tier for the cast (see [`Self::fire_sub`]).
    pub fn mc2_fire_sub(&self, spell: usize, m: usize) -> (sub: SubSpell)
        requires
            m < self.g.ent.len(),
        ensures
            sub == self.fire_sub(spell as int, m as int),
    {
        let tier = self.g.ent[m].f71 as usize;
        let ti = if tier > 2 { 2 } else { tier };
        let sub = if spell < self.g.assets.spells.len() {
            self.g.assets.spells[spell].tiers[ti]
        } else {
            SubSpell { mana_cost: 0, hint_text: 0, sub_spell: 0, word_0x18: 0, font_type: 0, max_mana_limit: 0, xpos1: 0, life: 0 }
        };
        if (spell == 21 || spell == 25) && sub.life > 0 {
            SubSpell { sub_spell: sub.sub_spell / (sub.life as i32), ..sub }
        } else {
            sub
        }
    }

    /// The possession cast: the arm of the tier's life byte (the tier
    /// index stands in when the spell has no row); a launched bolt gets
    /// its finish (see [`possess_finish`]) and sound 40.
    #[verifier::spinoff_prover]
    #[verifier::rlimit(40)]
    pub fn mc2_fire_possess(&mut self, m: usize, sub: SubSpell, life: i8, p: PlayerPose, mz: Muzzles)
        requires
            old(self).wf(),
            m < old(self).g.ent.len(),
            old(self).g.ent[m as int].class64 != 0,
            5 * (ext_of(&old(self).g, 209).1 as int / 2) <= 0xFFFF,
        ensures
            final(self).wf(),
            possess_rel(old(self), final(self), m, sub, life, p, mz),

    {
        let arm = if life == 0 {
            DispatchArm { subtype: 1, impact: (10, 12), charge: false }
        } else if life == 1 {
            DispatchArm { subtype: 17, impact: (10, 54), charge: false }
        } else if life == 2 {
            DispatchArm { subtype: 17, impact: (10, 69), charge: false }
        } else if life == 3 {
            DispatchArm { subtype: 17, impact: (10, 0), charge: false }
        } else {
            return;
        };
        let token_sub = self.g.ent[m].f30;
        proof {
            if self.g.free.len() > 0 {
                assert(self.g.ent[self.g.free@.last() as int].class64 == 0);
            }
        }
        let i = match self.mc2_launch(1, m, arm, sub, p, mz) {
            Some(i) => i,
            None => return,
        };
        let v: i64 = token_sub as i64 * 256;
        assert(0 <= v * v <= 0x1_0000_0000_0000) by (nonlinear_arith)
            requires
                0 <= v <= 0x100_0000;
        let sq: i16 = #[verifier::truncate] ((v * v) as i16);
        let sp: i16 = #[verifier::truncate] ((384 + p.speed as i32) as i16);
        let mut e = self.g.ent[i];
        e.f26 = if arm.subtype == 1 { 200 } else { sq };
        e.f126 = sp;
        let ghost g0 = self.g;
        self.g.ent.set(i, e);
        proof {
            lemma_wf_same_classes(&g0, &self.g);
        }
        self.g.snd_player(40);
        proof {
            assert(self.g.ent@ =~= old(self).g.ent@.update(i as int, possess_finish(
                proj_rec(&old(self).g, 1, m as int, arm, sub, p, mz, i as int, None, None),
                arm.subtype,
                token_sub,
                p,
            )));
        }
    }
}

/// Room for one more XP on `spell` in book `b`.
pub open spec fn xp_room(b: Mc2Spellbook, spell: int) -> bool {
    &&& b.xp_vol[spell] + 1 <= i32::MAX
    &&& xp_fits(b.xp_vol[spell] + 1, b.xp_bank[spell] as int, spell)
}

/// The XP award of one point on `spell` from `a` to `b`: the human's
/// volatile XP rises by one while he is alive (the award's relevel may
/// announce); the pool and the human are as they were.
pub open spec fn xp_awarded(a: &World, b: &World, spell: int) -> bool {
    &&& a.player.state == LifeState::Alive ==> b.mc2_book.xp_vol[spell] == a.mc2_book.xp_vol[spell] + 1
    &&& a.player.state != LifeState::Alive ==> b.mc2_book == a.mc2_book
    &&& b.g.ent == a.g.ent
    &&& b.g.free == a.g.free
    &&& b.g.keeps_world(&a.g)
    &&& b.player == a.player
    &&& b.entities_dirty == a.entities_dirty
    &&& b.mc2_duel == a.mc2_duel
    &&& b.pending_speed_zero == a.pending_speed_zero
    &&& b.keeps_rest(a)
}

/// The channel spell's first tick from `a` to `b`: the human's record
/// as [`channel_player`] says, rebound's precise-law bit from the tier
/// (life 1), the one-XP award, then the channel's sound when it has one.
pub open spec fn channel_rel(a: &World, b: &World, spell: usize, sub: SubSpell, p: PlayerPose) -> bool {
    &&& b.player == channel_player(a.player, spell as int, sub, p)
    &&& b.g.mc2_rebound_precise == (if spell == 8 { (if sub.life == 1 { 1i32 } else { 0i32 }) } else { a.g.mc2_rebound_precise })
    &&& a.player.state == LifeState::Alive ==> b.mc2_book.xp_vol[spell as int] == a.mc2_book.xp_vol[spell as int] + 1
    &&& b.g.ent == a.g.ent
    &&& b.g.free == a.g.free
    &&& match channel_sound(spell as int) {
        Some(v) => b.g.sounds@.len() > 0 && b.g.sounds@.last() == (v, PLAYER_TARGET),
        None => true,
    }
    &&& b.entities_dirty == a.entities_dirty
    &&& b.mc2_duel == a.mc2_duel
    &&& b.pending_speed_zero == a.pending_speed_zero
    &&& b.keeps_rest(a)
}

/// A carrier spell's launch from `a` to `b` (summon army, magic mine,
/// alliance): one launch of the arm, then sound `snd` when it flew.
pub open spec fn carrier_rel(a: &World, b: &World, spell: usize, m: usize, arm: DispatchArm, sub: SubSpell, p: PlayerPose, mz: Muzzles, snd: u8) -> bool {
    let o = &a.g;
    &&& (if creator_spec(arm.subtype).is_some() && o.free.len() > 0 {
        let i = o.free@.last() as int;
        &&& b.g.free@ == o.free@.drop_last()
        &&& b.g.ent@ == o.ent@.update(i, proj_rec(o, spell as int, m as int, arm, sub, p, mz, i, None, None))
        &&& b.g.sounds@ == o.sounds@.push((snd, PLAYER_TARGET))
    } else {
        b.g.free@ == o.free@ && b.g.ent == o.ent && b.g.sounds == o.sounds
    })
    &&& b.g.keeps_world(&a.g)
    &&& b.mc2_book == a.mc2_book
    &&& b.player == a.player
    &&& b.notification == a.notification
    &&& b.entities_dirty == a.entities_dirty
    &&& b.mc2_duel == a.mc2_duel
    &&& b.pending_speed_zero == a.pending_speed_zero
    &&& b.keeps_rest(a)
}

impl World {
    /// A channel spell's first tick (see [`channel_rel`]).
    #[verifier::spinoff_prover]
    #[verifier::rlimit(40)]
    pub fn mc2_fire_channel(&mut self, spell: usize, sub: SubSpell, p: PlayerPose)
        requires
            old(self).wf(),
            spell < 26,
            spell != 2,
            is_channel(spell as int),
            xp_room(old(self).mc2_book, spell as int),
        ensures
            final(self).wf(),
            channel_rel(old(self), final(self), spell, sub, p),
    {
        self.set_channel(spell, sub, p);
        self.mc2_award_xp(PLAYER_TARGET, spell, 1);
        if spell == 3 {
            self.g.snd_player(19);
        } else if spell == 5 {
            self.g.snd_player(25);
        }
    }

    /// The channel switch of a channel spell's first tick (the human's
    /// record and rebound's precise-law bit; see [`channel_rel`]).
    #[verifier::spinoff_prover]
    #[verifier::rlimit(60)]
    pub fn set_channel(&mut self, spell: usize, sub: SubSpell, p: PlayerPose)
        requires
            old(self).wf(),
        ensures
            final(self).wf(),
            final(self).player == channel_player(old(self).player, spell as int, sub, p),
            final(self).g.mc2_rebound_precise == (if spell == 8 { (if sub.life == 1 { 1i32 } else { 0i32 }) } else { old(self).g.mc2_rebound_precise }),
            final(self).g == (Gen { mc2_rebound_precise: final(self).g.mc2_rebound_precise, ..old(self).g }),
            final(self).mc2_book == old(self).mc2_book,
            final(self).notification == old(self).notification,
            final(self).entities_dirty == old(self).entities_dirty,
            final(self).mc2_duel == old(self).mc2_duel,
            final(self).pending_speed_zero == old(self).pending_speed_zero,
            final(self).keeps_rest(old(self)),
    {
        let np = channel_player_of(self.player, spell, sub, p);
        self.player = np;
        if spell == 8 {
            self.g.mc2_rebound_precise = if sub.life == 1 { 1 } else { 0 };
        }
    }

    /// A carrier spell's launch (see [`carrier_rel`]).
    #[verifier::spinoff_prover]
    #[verifier::rlimit(40)]
    pub fn mc2_fire_carrier(&mut self, spell: usize, m: usize, arm: DispatchArm, sub: SubSpell, p: PlayerPose, mz: Muzzles, snd: u8)
        requires
            old(self).wf(),
            m < old(self).g.ent.len(),
            old(self).g.ent[m as int].class64 != 0,
            spell < 26,
            arm.subtype != 1,
        ensures
            final(self).wf(),
            carrier_rel(old(self), final(self), spell, m, arm, sub, p, mz, snd),
    {
        proof {
            if self.g.free.len() > 0 {
                assert(self.g.ent[self.g.free@.last() as int].class64 == 0);
            }
        }
        match self.mc2_launch(spell, m, arm, sub, p, mz) {
            Some(_) => {
                self.g.snd_player(snd);
            },
            None => {},
        }
    }

    /// The metamorph cast's finish on creature `s` the chassis spawned
    /// for token `m` (model `model`): the creature becomes the human's
    /// pose-puppet (stage 12, action 8·model + 7, the human's team, its
    /// cry due), the token links it, the carpet hides behind it, one XP
    /// on metamorph, sound 60.
    #[verifier::spinoff_prover]
    #[verifier::rlimit(40)]
    pub fn mc2_metamorph_bind(&mut self, m: usize, s: usize, model: u8)
        requires
            old(self).wf(),
            m < old(self).g.ent.len(),
            s < old(self).g.ent.len(),
            s != m,
            s < 0x10000,
            xp_room(old(self).mc2_book, 4),
        ensures
            final(self).wf(),
            final(self).g.ent@ == old(self).g.ent@.update(
                s as int,
                (Ent { site_z: 12, tick70: w8(8 * model as int + 7), id24: PLAYER_TARGET, f26: 0, ..old(self).g.ent[s as int] }),
            ).update(m as int, (Ent { f146: s as u16, ..old(self).g.ent[m as int] })),
            final(self).player == (Player { metamorph: model, ..old(self).player }),
            old(self).player.state == LifeState::Alive ==> final(self).mc2_book.xp_vol[4] == old(self).mc2_book.xp_vol[4] + 1,
            final(self).g.sounds@.len() > 0 && final(self).g.sounds@.last() == (60u8, PLAYER_TARGET),
            final(self).g.free == old(self).g.free,
            final(self).entities_dirty == old(self).entities_dirty,
            final(self).mc2_duel == old(self).mc2_duel,
            final(self).pending_speed_zero == old(self).pending_speed_zero,
            final(self).keeps_rest(old(self)),
    {
        let ghost g0 = self.g;
        let tk: u8 = model.wrapping_mul(8).wrapping_add(7);
        assert(tk == w8(8 * model as int + 7)) by (bit_vector)
            requires
                tk == model.wrapping_mul(8).wrapping_add(7);
        let mut c = self.g.ent[s];
        c.site_z = 12;
        c.tick70 = tk;
        c.id24 = PLAYER_TARGET;
        c.f26 = 0;
        self.g.ent.set(s, c);
        let mut t = self.g.ent[m];
        t.f146 = s as u16;
        self.g.ent.set(m, t);
        proof {
            lemma_wf_same_classes(&g0, &self.g);
        }
        self.player.metamorph = model;
        self.mc2_award_xp(PLAYER_TARGET, 4, 1);
        self.g.snd_player(60);
    }
}

/// The human's record after a channel spell's first tick (see
/// [`channel_player`]).
pub fn channel_player_of(pl: Player, spell: usize, sub: SubSpell, p: PlayerPose) -> (r: Player)
    ensures
        r == channel_player(pl, spell as int, sub, p),
{
    if spell == 3 {
        let f: i8 = (if sub.sub_spell < 1 { 1 } else if sub.sub_spell > 8 { 8 } else { sub.sub_spell }) as i8;
        Player { accel: if p.speed >= 0 { 1 } else { -1 }, accel_held: true, accel_mc2_factor: f, ..pl }
    } else if spell == 5 {
        Player { heal_active: true, ..pl }
    } else if spell == 6 {
        Player { shield: true, ..pl }
    } else if spell == 8 {
        Player { rebound: true, ..pl }
    } else if spell == 11 {
        let st: i8 = if sub.life < 0 { 0 } else if sub.life > 3 { 3 } else { sub.life };
        Player { invisible: true, invis_strength: st, ..pl }
    } else if spell == 12 {
        Player { beyond_sight: true, ..pl }
    } else {
        pl
    }
}

impl World {
    /// The possession tier's life byte: the row's, or the token's live
    /// tier (truncated) when the spell has no row.
    pub open spec fn possess_life(&self, spell: int, m: int, sub: SubSpell) -> i8 {
        if 0 <= spell < self.g.assets.spells.len() { sub.life } else { self.g.ent[m].f71 as i8 }
    }

    /// What the first cast tick of spell `spell` from token `m` does to
    /// `a` (giving `b` and the chassis request `req`): the projectile
    /// spells launch (see [`proj_rel`]); possession launches its claim
    /// bolt (see [`possess_rel`]); the channel spells switch their
    /// channel (see [`channel_rel`]); summon army, magic mine and
    /// alliance launch their carriers ((9,24) with the army impact and
    /// sound 9, (9,29) with the mine and sound 15, (9,25) with the
    /// conversion and sound 9, each carrying the tier's charge); duel
    /// leaves its tether (see [`duel_rel`]); teleport awards one XP and
    /// asks for the relocation; castle, metamorph (of the tier's life
    /// as its model) and Fool's Mana ask for their engine routine and
    /// change nothing; any other spell does nothing.
    pub open spec fn fire_rel(a: &World, b: &World, spell: usize, m: usize, p: PlayerPose, mz: Muzzles, req: FireRequest) -> bool {
        let sub = a.fire_sub(spell as int, m as int);
        match dispatch_arm_spec(spell, sub.life) {
            Some((st, imp, ch)) => req == FireRequest::Done && proj_rel(a, b, spell, m, DispatchArm { subtype: st, impact: imp, charge: ch }, sub, p, mz),
            None => if spell == 1 {
                req == FireRequest::Done && possess_rel(a, b, m, sub, a.possess_life(1, m as int, sub), p, mz)
            } else if spell == 2 {
                req == FireRequest::CastCastle && *b == *a
            } else if is_channel(spell as int) {
                req == FireRequest::Done && channel_rel(a, b, spell, sub, p)
            } else if spell == 10 {
                req == FireRequest::Teleport && xp_awarded(a, b, 10)
            } else if spell == 19 {
                req == FireRequest::Done && carrier_rel(a, b, spell, m, DispatchArm { subtype: 24, impact: (10, 72), charge: true }, sub, p, mz, 9)
            } else if spell == 22 {
                req == FireRequest::FoolsMana(sub) && *b == *a
            } else if spell == 23 {
                req == FireRequest::Done && carrier_rel(a, b, spell, m, DispatchArm { subtype: 29, impact: (10, 78), charge: true }, sub, p, mz, 15)
            } else if spell == 24 {
                req == FireRequest::Done && carrier_rel(a, b, spell, m, DispatchArm { subtype: 25, impact: (10, 74), charge: true }, sub, p, mz, 9)
            } else if spell == 4 {
                req == FireRequest::Metamorph((if sub.life > 0 { sub.life } else { 0 }) as u8) && *b == *a
            } else if spell == 14 {
                req == FireRequest::Done && duel_rel(a, b, p)
            } else {
                req == FireRequest::Done && *b == *a
            },
        }
    }

    /// The first cast tick of spell `spell` from token `m`, fired from
    /// the pose `p` with the hand muzzles `mz` (see [`Self::fire_rel`]).
    #[verifier::spinoff_prover]
    #[verifier::rlimit(60)]
    pub fn mc2_spell_fire(&mut self, spell: usize, m: usize, p: PlayerPose, mz: Muzzles) -> (req: FireRequest)
        requires
            old(self).wf(),
            m < old(self).g.ent.len(),
            old(self).g.ent[m as int].class64 != 0,
            spell == 1 ==> 5 * (ext_of(&old(self).g, 209).1 as int / 2) <= 0xFFFF,
            is_channel(spell as int) || spell == 10 ==> xp_room(old(self).mc2_book, spell as int),
        ensures
            final(self).wf(),
            World::fire_rel(old(self), final(self), spell, m, p, mz, req),
    {
        let sub = self.mc2_fire_sub(spell, m);
        match World::mc2_dispatch_arm(spell, sub.life) {
            Some(arm) => {
                self.mc2_fire_projectiles(spell, m, arm, sub, p, mz);
                return FireRequest::Done;
            },
            None => {},
        }
        if spell == 1 {
            let life: i8 = if spell < self.g.assets.spells.len() {
                sub.life
            } else {
                #[verifier::truncate] (self.g.ent[m].f71 as i8)
            };
            self.mc2_fire_possess(m, sub, life, p, mz);
            FireRequest::Done
        } else if spell == 2 {
            FireRequest::CastCastle
        } else if spell == 3 || spell == 5 || spell == 6 || spell == 8 || spell == 11 || spell == 12 {
            self.mc2_fire_channel(spell, sub, p);
            FireRequest::Done
        } else if spell == 10 {
            self.mc2_award_xp(PLAYER_TARGET, 10, 1);
            FireRequest::Teleport
        } else if spell == 19 {
            self.mc2_fire_carrier(spell, m, DispatchArm { subtype: 24, impact: (10, 72), charge: true }, sub, p, mz, 9);
            FireRequest::Done
        } else if spell == 22 {
            FireRequest::FoolsMana(sub)
        } else if spell == 23 {
            self.mc2_fire_carrier(spell, m, DispatchArm { subtype: 29, impact: (10, 78), charge: true }, sub, p, mz, 15);
            FireRequest::Done
        } else if spell == 24 {
            self.mc2_fire_carrier(spell, m, DispatchArm { subtype: 25, impact: (10, 74), charge: true }, sub, p, mz, 9);
            FireRequest::Done
        } else if spell == 4 {
            FireRequest::Metamorph((if sub.life > 0 { sub.life } else { 0 }) as u8)
        } else if spell == 14 {
            self.mc2_cast_duel(p);
            FireRequest::Done
        } else {
            FireRequest::Done
        }
    }
}

} // verus!
