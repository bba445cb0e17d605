//! The world above the chassis: the human wizard's record, the spell
//! book, the rival roster, the message surface and the language table.

use vstd::prelude::*;
use crate::pool::{Gen, WorldPatches, F_REAPED, PLAYER_TARGET};
use crate::mc2::cast::Mc2Spellbook;
use crate::mc1::rivals::{Mc1SpellCost, Mc1Behavior, Rival, Mc2Rival};

verus! {

/// The human wizard's life phase.
#[derive(Clone, Copy, PartialEq, Eq, Structural)]
pub enum LifeState {
    Alive,
    Dying,
    Dead,
}

/// Which game's rules the world runs.
#[derive(Clone, Copy, PartialEq, Eq, Structural)]
pub enum GameId {
    Mc1,
    Mc2,
}

/// The human wizard's live record (he is not a pool entity).
#[derive(Clone, Copy)]
pub struct Player {
    pub state: LifeState,
    pub mana: u32,
    pub mana_max: u32,
    pub invis_strength: i8,
    pub invisible: bool,
    pub shield: bool,
    pub rebound: bool,
    pub beyond_sight: bool,
    pub heal_active: bool,
    pub accel: i8,
    pub accel_held: bool,
    pub accel_mc2_factor: i8,
    pub metamorph: u8,
    /// The human's MC1 manifestation slots by spell id (0 = not owned).
    pub owned: [u16; 24],
}

/// An on-screen message: text, lifetime in ticks, ink colour.
pub struct Notification {
    pub text: String,
    pub ticks: u16,
    pub color: [u8; 3],
}

/// The human carpet's pose as the cast machinery reads it.
#[derive(Clone, Copy)]
pub struct PlayerPose {
    pub x: u16,
    pub y: u16,
    pub z: i16,
    pub heading: u16,
    pub pitch: u16,
    pub speed: i16,
}

/// The world.
pub struct World {
    pub g: Gen,
    pub game: GameId,
    pub mc2_book: Mc2Spellbook,
    /// The all-spells instrument.
    pub dev_spells: bool,
    pub player: Player,
    pub notification: Option<Notification>,
    /// The language table (L2.TXT strings by index).
    pub lang: Vec<String>,
    pub human_pose: (u16, u16, i16),
    pub entities_dirty: bool,
    pub terrain_dirty: bool,
    pub patches: WorldPatches,
    pub strict_retail: bool,
    /// The live duel lock (the locked opponent), if any.
    pub mc2_duel: Option<u16>,
    pub pending_speed_zero: bool,
    pub rivals: Vec<Rival>,
    pub mc2_rivals: Vec<Mc2Rival>,
    /// Start-marker tile per player slot.
    pub start_markers: [Option<(u16, u16)>; 8],
    /// The imported human carpet's pool slot (0 in a native world).
    pub mc1_carpet_slot: u16,
    /// The MC1 spell costs by spell id.
    pub mc1_spells: Vec<Mc1SpellCost>,
    /// The MC1 castle capacity ladder by level.
    pub mc1_castle_cap: [i32; 8],
    /// The MC1 behaviour rows (the per-row constants the AI reads).
    pub mc1_behavior: Vec<Mc1Behavior>,
    /// The tick-top class-3 chain: the class-3 records alive at the
    /// top of this tick, in chain order.
    pub wiz_chain: Vec<u16>,
    /// Was the human's carpet on the class-3 chain at the tick top?
    pub human_bucket_alive: bool,
    /// The first native state number of the class-12 token tick (a
    /// native token of spell s ticks in state `manifest_base + s`).
    pub manifest_base: u8,
    /// The established-castle register by player slot: the castle the
    /// slot's first level-up bound (0 = none).
    pub castle_reg: [u16; 8],
    /// The tick-top creature chains (class 5), model buckets in order,
    /// flattened: the creatures alive at the top of this tick.
    pub mob_chain: Vec<u16>,
    /// The tick-top mana-ball chain: the balls alive at the top of
    /// this tick, in chain order.
    pub ball_chain: Vec<u16>,
}

/// Is record `e` a standing castle (3,2) owned by `own`?
pub open spec fn is_castle_of(e: crate::pool::Ent, own: u16) -> bool {
    e.class64 == 3 && e.model65 == 2 && e.flags & F_REAPED == 0 && e.id24 == own
}

impl World {
    /// The world invariant: a well-formed chassis, every book entry a
    /// pool slot, every spell row at most three tiers.
    pub open spec fn wf(&self) -> bool {
        &&& self.g.wf()
        &&& -1 <= self.mc2_book.left < 26
        &&& -1 <= self.mc2_book.right < 26
        &&& forall|s: int| 0 <= s < 26 ==> (#[trigger] self.mc2_book.ent[s] as int) < self.g.ent.len()
        &&& forall|s: int| 0 <= s < self.g.assets.spells.len() ==> #[trigger] self.g.assets.spells[s].byte_0 <= 3
    }

    /// A world on chassis `g` running `game`'s rules, with an empty
    /// book, a live broke human, no rivals.
    pub fn new(g: Gen, game: GameId) -> (w: World)
        requires
            g.wf(),
            forall|s: int| 0 <= s < g.assets.spells.len() ==> #[trigger] g.assets.spells[s].byte_0 <= 3,
        ensures
            w.wf(),
            w.g == g,
            w.game == game,
            w.mc2_book.is_pristine_spec(),
            !w.dev_spells,
            w.player.state == LifeState::Alive,
            w.player.mana == 0,
            w.rivals@.len() == 0,
            w.mc2_rivals@.len() == 0,
            w.notification.is_none(),
    {
        let book = Mc2Spellbook::default();
        World {
            g,
            game,
            mc2_book: book,
            dev_spells: false,
            player: Player {
                state: LifeState::Alive,
                mana: 0,
                mana_max: 0,
                invis_strength: 0,
                invisible: false,
                shield: false,
                rebound: false,
                beyond_sight: false,
                heal_active: false,
                accel: 0,
                accel_held: false,
                accel_mc2_factor: 0,
                metamorph: 0,
                owned: [0; 24],
            },
            notification: None,
            lang: Vec::new(),
            human_pose: (0, 0, 0),
            entities_dirty: false,
            terrain_dirty: false,
            patches: WorldPatches::retail(),
            strict_retail: false,
            mc2_duel: None,
            pending_speed_zero: false,
            rivals: Vec::new(),
            mc2_rivals: Vec::new(),
            start_markers: [None, None, None, None, None, None, None, None],
            mc1_carpet_slot: 0,
            mc1_spells: Vec::new(),
            mc1_castle_cap: [0; 8],
            mc1_behavior: Vec::new(),
            wiz_chain: Vec::new(),
            castle_reg: [0u16; 8],
            mob_chain: Vec::new(),
            ball_chain: Vec::new(),
            human_bucket_alive: false,
            manifest_base: 0,
        }
    }

    /// Which game's rules the world runs.
    pub fn game(&self) -> (g: GameId)
        ensures
            g == self.game,
    {
        self.game
    }

    /// Every world field outside the chassis, the book, the human's
    /// record and the message surface is as in `o`.
    pub open spec fn keeps_rest(&self, o: &World) -> bool {
        &&& self.game == o.game
        &&& self.dev_spells == o.dev_spells
        &&& self.lang == o.lang
        &&& self.human_pose == o.human_pose
        &&& self.terrain_dirty == o.terrain_dirty
        &&& self.patches == o.patches
        &&& self.strict_retail == o.strict_retail
        &&& self.rivals == o.rivals
        &&& self.mc2_rivals == o.mc2_rivals
        &&& self.start_markers == o.start_markers
        &&& self.mc1_carpet_slot == o.mc1_carpet_slot
        &&& self.mc1_spells == o.mc1_spells
        &&& self.mc1_castle_cap == o.mc1_castle_cap
        &&& self.mc1_behavior == o.mc1_behavior
        &&& self.wiz_chain == o.wiz_chain
        &&& self.human_bucket_alive == o.human_bucket_alive
        &&& self.manifest_base == o.manifest_base
        &&& self.castle_reg == o.castle_reg
        &&& self.mob_chain == o.mob_chain
        &&& self.ball_chain == o.ball_chain
    }

    /// The first standing castle owned by `own`, by pool order.
    pub open spec fn castle_of_spec(&self, own: u16) -> Option<usize> {
        if exists|j: int| 1 <= j < self.g.ent.len() && is_castle_of(#[trigger] self.g.ent[j], own) {
            let j = choose|j: int|
                1 <= j < self.g.ent.len() && is_castle_of(#[trigger] self.g.ent[j], own) && forall|k: int|
                    1 <= k < j ==> !is_castle_of(#[trigger] self.g.ent[k], own);
            Some(j as usize)
        } else {
            None
        }
    }

    /// The first standing castle owned by `own`, by pool order.
    pub fn castle_of(&self, own: u16) -> (r: Option<usize>)
        ensures
            r == self.castle_of_spec(own),
            match r {
                Some(c) => 1 <= c < self.g.ent.len() && is_castle_of(self.g.ent[c as int], own),
                None => forall|j: int| 1 <= j < self.g.ent.len() ==> !is_castle_of(#[trigger] self.g.ent[j], own),
            },
    {
        let n = self.g.ent.len();
        if n == 0 {
            return None;
        }
        let mut j: usize = 1;
        while j < n
            invariant
                n == self.g.ent.len(),
                1 <= j <= n,
                forall|k: int| 1 <= k < j ==> !is_castle_of(#[trigger] self.g.ent[k], own),
            decreases n - j,
        {
            let e = &self.g.ent[j];
            if e.class64 == 3 && e.model65 == 2 && e.flags & F_REAPED == 0 && e.id24 == own {
                proof {
                    let w = choose|q: int|
                        1 <= q < self.g.ent.len() && is_castle_of(#[trigger] self.g.ent[q], own)
                            && forall|k: int| 1 <= k < q ==> !is_castle_of(#[trigger] self.g.ent[k], own);
                    assert(is_castle_of(self.g.ent[j as int], own));
                    if w < j {
                    } else if w > j {
                        assert(!is_castle_of(self.g.ent[j as int], own));
                    }
                }
                return Some(j);
            }
            j = j + 1;
        }
        None
    }

    /// The human wizard's castle.
    pub fn player_castle(&self) -> (r: Option<usize>)
        ensures
            r == self.castle_of_spec(PLAYER_TARGET),
            match r {
                Some(c) => 1 <= c < self.g.ent.len() && is_castle_of(self.g.ent[c as int], PLAYER_TARGET),
                None => forall|j: int| 1 <= j < self.g.ent.len() ==> !is_castle_of(#[trigger] self.g.ent[j], PLAYER_TARGET),
            },
    {
        self.castle_of(PLAYER_TARGET)
    }

    /// Put `text` on the message surface for `ticks` ticks in `color`.
    pub fn set_notification(&mut self, text: String, ticks: u16, color: [u8; 3])
        ensures
            final(self).notification == Some(Notification { text, ticks, color }),
            final(self).g == old(self).g,
            final(self).mc2_book == old(self).mc2_book,
            final(self).player == old(self).player,
            final(self).entities_dirty == old(self).entities_dirty,
            final(self).mc2_duel == old(self).mc2_duel,
            final(self).pending_speed_zero == old(self).pending_speed_zero,
            final(self).keeps_rest(old(self)),
    {
        self.notification = Some(Notification { text, ticks, color });
    }
}

} // verus!
