//! Hostile (AI) wizards — the class-3 model-1 rival carpets: the
//! level wiring, the brain state, the hate ledger and the target
//! elections. The AI is a decision layer over the shared chassis:
//! rivals own the same class-12 manifestation records as the human,
//! and their owner tag (the wizard's own pool slot) rides every record
//! they own.

use vstd::prelude::*;
use crate::pool::{Gen, Ent, PLAYER_TARGET, F_REAPED, fresh_ent, lemma_wf_same_classes, dist2_spec, wi16, bearing_spec, wrap_diff, tdiv};
use crate::world::{World, LifeState, Player};

verus! {

/// The MC1 spell count (the AI's spell arrays are keyed 0..24).
pub const SPELL_COUNT: usize = 24;

/// The castle spell.
pub const SPELL_CASTLE: usize = 16;

/// The hate ledger's neutral baseline.
pub const HATE_NEUTRAL: u16 = 24607;

/// Hate toward a freshly (re)spawned wizard — elevated but decaying.
pub const HATE_RESPAWN: u16 = 40927;

/// The flat war threshold: hate strictly above it raises the war flag.
pub const WAR_THRESHOLD: u32 = 50000;

/// Per-slot config from the level record: personality parameters,
/// starting castle and the two spell masks.
#[derive(Debug, Clone, Copy)]
pub struct RivalConfig {
    /// Hate rise rate, war thresholds, opportunism margins.
    pub aggression: u8,
    /// Commit aim cone, rebound-notice probability.
    pub accuracy: u8,
    /// Decision period, turn agility, burst pause, respawn.
    pub tempo: u8,
    /// Starting castle level: 0 = none, N = a castle at level N-1
    /// spawns with the wizard.
    pub castle_level: u8,
    /// Level-start book.
    pub book: [bool; 24],
    /// What the AI may learn mid-level.
    pub allowed: [bool; 24],
}

/// The rival wizard names, by player slot (slot 0 = the human's
/// default name).
pub const RIVAL_NAMES: [&'static str; 8] = [
    "Zanzamar",
    "Vodor",
    "Gryshnak",
    "Mahmoud",
    "Syed",
    "Raschid",
    "Alhabbal",
    "Scheherazade",
];

/// The AI brain state. The retail state byte also has the values
/// 2/4/5/10, which no selector ever sets; they read as `Fresh`.
#[derive(Debug, Clone, Copy, PartialEq, Eq, Structural, Default, Hash)]
pub enum AiState {
    /// Fresh spawn: decide immediately.
    #[default]
    Fresh,
    /// Fly home, cast the castle spell = the upgrade chain.
    Upgrade,
    /// Fly to the scouted site, plant the castle.
    Build,
    /// Claim a mana ball.
    Possess,
    /// Raid an enemy castle.
    RaidCastle,
    /// Attack an enemy wizard.
    AttackWizard,
    /// Intercept an enemy balloon.
    RaidBalloon,
    /// Hunt any mana-holding creature.
    HuntMana,
    /// Return home (heal / regroup).
    Home,
    /// Cruise (full life, nothing to do).
    Cruise,
}

/// The state a retail state byte denotes.
pub open spec fn from_retail_spec(v: u8) -> AiState {
    if v == 1 {
        AiState::Upgrade
    } else if v == 3 {
        AiState::Build
    } else if v == 6 {
        AiState::Possess
    } else if v == 7 {
        AiState::RaidCastle
    } else if v == 8 {
        AiState::AttackWizard
    } else if v == 9 {
        AiState::RaidBalloon
    } else if v == 11 {
        AiState::Home
    } else if v == 12 {
        AiState::Cruise
    } else if v == 13 {
        AiState::HuntMana
    } else {
        AiState::Fresh
    }
}

/// The canonical retail state byte of a state.
pub open spec fn to_retail_spec(s: AiState) -> u8 {
    match s {
        AiState::Fresh => 0,
        AiState::Upgrade => 1,
        AiState::Build => 3,
        AiState::Possess => 6,
        AiState::RaidCastle => 7,
        AiState::AttackWizard => 8,
        AiState::RaidBalloon => 9,
        AiState::Home => 11,
        AiState::Cruise => 12,
        AiState::HuntMana => 13,
    }
}

/// Is `v` a state byte some selector writes?
pub open spec fn live_state_byte(v: u8) -> bool {
    v == 0 || v == 1 || v == 3 || v == 6 || v == 7 || v == 8 || v == 9 || v == 11 || v == 12 || v == 13
}

impl AiState {
    /// Retail state byte → state; the unused bytes fall to `Fresh`.
    pub fn from_retail(v: u8) -> (s: AiState)
        ensures
            s == from_retail_spec(v),
    {
        match v {
            1 => AiState::Upgrade,
            3 => AiState::Build,
            6 => AiState::Possess,
            7 => AiState::RaidCastle,
            8 => AiState::AttackWizard,
            9 => AiState::RaidBalloon,
            0xB => AiState::Home,
            0xC => AiState::Cruise,
            0xD => AiState::HuntMana,
            _ => AiState::Fresh,
        }
    }

    /// State → canonical retail state byte.
    pub fn to_retail(self) -> (v: u8)
        ensures
            v == to_retail_spec(self),
    {
        match self {
            AiState::Fresh => 0,
            AiState::Upgrade => 1,
            AiState::Build => 3,
            AiState::Possess => 6,
            AiState::RaidCastle => 7,
            AiState::AttackWizard => 8,
            AiState::RaidBalloon => 9,
            AiState::Home => 0xB,
            AiState::Cruise => 0xC,
            AiState::HuntMana => 0xD,
        }
    }

    /// The state's name, as the diagnostics print it.
    pub fn name(self) -> (n: &'static str)
        ensures
            n@ == state_name_spec(self),
    {
        match self {
            AiState::Fresh => "Fresh",
            AiState::Upgrade => "Upgrade",
            AiState::Build => "Build",
            AiState::Possess => "Possess",
            AiState::RaidCastle => "RaidCastle",
            AiState::AttackWizard => "AttackWizard",
            AiState::RaidBalloon => "RaidBalloon",
            AiState::Home => "Home",
            AiState::Cruise => "Cruise",
            AiState::HuntMana => "HuntMana",
        }
    }
}

/// Every state survives the trip to its byte and back; a byte survives
/// the trip to its state and back exactly when a selector writes it,
/// and every other byte comes back as `Fresh`'s 0.
pub proof fn law_ai_state_round_trip(s: AiState, v: u8)
    ensures
        from_retail_spec(to_retail_spec(s)) == s,
        live_state_byte(v) ==> to_retail_spec(from_retail_spec(v)) == v,
        !live_state_byte(v) ==> to_retail_spec(from_retail_spec(v)) == 0,
{
}

/// One live rival: the record the AI machinery keeps beside the
/// wizard's pool entity (position, yaw, life and speed live there).
pub struct Rival {
    /// Player slot (1..=7); slot 0 = the human, never a rival.
    pub slot: u8,
    /// Wizard entity pool index — also the rival's owner tag.
    pub ent: u16,
    /// Manifestation pool slots by spell id (0 = not owned).
    pub owned: [u16; 24],
    /// The acquisition list: manifestation pool slots in pickup order.
    pub acq: [i32; 24],
    /// Spells known across deaths.
    pub known: [bool; 24],
    /// Learn eligibility.
    pub allowed: [bool; 24],
    /// Spell-learning countdowns.
    pub learn: [u16; 24],
    /// AI re-attempt cooldowns; slot 16 starts at 4 per player slot
    /// (the castle-build stagger).
    pub cooldown: [u16; 24],
    /// Carried mana, its ceiling and the pending regen delta.
    pub mana: u32,
    pub mana_max: u32,
    pub mana_delta: i32,
    /// Personality.
    pub agg: u16,
    pub acc: u16,
    /// The live cadence scalar (think period, turn servo, burst lockout).
    pub tempo: u16,
    pub state: AiState,
    /// Hate ledger and war flags per player slot.
    pub hate: [u16; 8],
    pub war: [bool; 8],
    /// Fireball/lightning burst counter.
    pub burst: i16,
    /// Poverty latch.
    pub poverty: bool,
    /// Current target: entity slot or `PLAYER_TARGET`; 0 = none.
    pub target: u16,
    /// The target's signature when it was picked.
    pub target_sig: u16,
    /// Scouted castle site.
    pub site: (u16, u16),
    /// Lateral dodge velocity.
    pub jink: i16,
    /// Pending knockback bearing and magnitude.
    pub knock_dir: u16,
    pub knock_mag: i16,
    /// Desired speed.
    pub vdes: i16,
    /// "The brain wrote the desired speed this tick".
    pub v14: bool,
    /// Spawn grace: the mailbox is discarded while positive.
    pub grace: u16,
    /// Post-hit regen stall.
    pub regen_stall: u16,
    /// Life-regen rate register.
    pub life_rate: i32,
    /// Dead and castle-less: permanently out.
    pub eliminated: bool,
    /// Buff flags derived from the manifestations' bursts.
    pub shield: bool,
    pub invisible: bool,
    pub rebound: bool,
}

/// An MC2-column rival record: the slot, the wizard entity and the
/// mana ceiling its wealth reads.
pub struct Mc2Rival {
    pub slot: u8,
    pub ent: u16,
    pub mana: u32,
    pub mana_max: u32,
}

/// The MC1 behaviour constants the AI reads from a wizard's row.
#[derive(Clone, Copy)]
pub struct Mc1Behavior {
    /// The per-state altitude nudge step (negative: the settle step).
    pub v_14: i16,
    /// The engagement range.
    pub v_28: i16,
}

/// The MC1 spell costs.
#[derive(Clone, Copy)]
pub struct Mc1SpellCost {
    pub castle_req: u32,
    pub possess_mana: u32,
    /// The burst length: a token armed for a cast starts its counter
    /// here (the full tick).
    pub count: u16,
}

/// The think period of a cadence scalar: `64 − tempo/4`, at least 1.
pub open spec fn think_period_spec(tempo: u16) -> int {
    if 64 - tempo / 4 >= 1 {
        64 - tempo / 4
    } else {
        1
    }
}

/// The first zero entry of an acquisition list, if any.
pub open spec fn first_zero(s: Seq<i32>) -> Option<int> {
    if exists|k: int| 0 <= k < s.len() && s[k] == 0 {
        Some(choose|k: int| 0 <= k < s.len() && s[k] == 0 && forall|q: int| 0 <= q < k ==> s[q] != 0)
    } else {
        None
    }
}

impl Rival {
    /// The record invariant: a rival slot and byte-sized personality.
    pub open spec fn wf(&self) -> bool {
        &&& 1 <= self.slot < 8
        &&& self.agg <= 255
        &&& self.acc <= 255
    }

    /// A fresh rival at `slot` on wizard entity `ent`: nothing owned or
    /// known, the config's learn mask and personality, 1000 mana of
    /// 1000, neutral hate, no war, a 100-tick spawn grace and the
    /// castle-build stagger of 4 ticks per slot.
    pub fn new(slot: u8, ent: u16, cfg: &RivalConfig) -> (r: Rival)
        ensures
            1 <= slot < 8 ==> r.wf(),
            r.slot == slot,
            r.ent == ent,
            forall|s: int| 0 <= s < 24 ==> #[trigger] r.owned[s] == 0,
            forall|s: int| 0 <= s < 24 ==> #[trigger] r.acq[s] == 0,
            forall|s: int| 0 <= s < 24 ==> !#[trigger] r.known[s],
            r.allowed == cfg.allowed,
            forall|s: int| 0 <= s < 24 ==> #[trigger] r.learn[s] == 0,
            forall|s: int| 0 <= s < 24 ==> #[trigger] r.cooldown[s] == (if s == 16 { 4 * slot as int } else { 0 }),
            r.mana == 1000,
            r.mana_max == 1000,
            r.mana_delta == 0,
            r.agg == cfg.aggression,
            r.acc == cfg.accuracy,
            r.tempo == cfg.tempo,
            r.state == AiState::Fresh,
            forall|p: int| 0 <= p < 8 ==> #[trigger] r.hate[p] == HATE_NEUTRAL,
            forall|p: int| 0 <= p < 8 ==> !#[trigger] r.war[p],
            r.burst == 0,
            !r.poverty,
            r.target == 0,
            r.target_sig == 0,
            r.site == (0u16, 0u16),
            r.jink == 0,
            r.knock_dir == 0,
            r.knock_mag == 0,
            r.vdes == 0,
            !r.v14,
            r.grace == 100,
            r.regen_stall == 0,
            r.life_rate == 0,
            !r.eliminated,
            !r.shield,
            !r.invisible,
            !r.rebound,
    {
        let mut cooldown = [0u16; 24];
        cooldown[16] = 4 * slot as u16;
        Rival {
            slot,
            ent,
            owned: [0; 24],
            acq: [0; 24],
            known: [false; 24],
            allowed: cfg.allowed,
            learn: [0; 24],
            cooldown,
            mana: 1000,
            mana_max: 1000,
            mana_delta: 0,
            agg: cfg.aggression as u16,
            acc: cfg.accuracy as u16,
            tempo: cfg.tempo as u16,
            state: AiState::Fresh,
            hate: [HATE_NEUTRAL; 8],
            war: [false; 8],
            burst: 0,
            poverty: false,
            target: 0,
            target_sig: 0,
            site: (0, 0),
            jink: 0,
            knock_dir: 0,
            knock_mag: 0,
            vdes: 0,
            v14: false,
            grace: 100,
            regen_stall: 0,
            life_rate: 0,
            eliminated: false,
            shield: false,
            invisible: false,
            rebound: false,
        }
    }

    /// The decision-tick period: every `64 − tempo/4` ticks, at least 1.
    pub fn think_period(&self) -> (p: u8)
        ensures
            p == think_period_spec(self.tempo),
            1 <= p <= 64,
    {
        let q: i32 = 64 - (self.tempo / 4) as i32;
        if q < 1 {
            1
        } else {
            q as u8
        }
    }

    /// The pickup append: the first zero entry of the acquisition list
    /// takes `m`; a full list drops the append.
    pub fn acq_push(&mut self, m: u16)
        ensures
            match first_zero(old(self).acq@) {
                Some(k) => final(self).acq@ == old(self).acq@.update(k, m as i32),
                None => final(self).acq == old(self).acq,
            },
            *final(self) == (Rival { acq: final(self).acq, ..*old(self) }),
    {
        let mut k: usize = 0;
        while k < 24
            invariant
                k <= 24,
                self.acq == old(self).acq,
                *self == *old(self),
                forall|q: int| 0 <= q < k ==> self.acq@[q] != 0,
            decreases 24 - k,
        {
            if self.acq[k] == 0 {
                proof {
                    let s = old(self).acq@;
                    assert(s[k as int] == 0);
                    let w = choose|j: int| 0 <= j < s.len() && s[j] == 0 && forall|q: int| 0 <= q < j ==> s[q] != 0;
                    if w < k {
                    } else if w > k {
                        assert(s[k as int] != 0);
                    }
                }
                self.acq[k] = m as i32;
                return;
            }
            k = k + 1;
        }
    }
}

/// The index of the first rival on wizard entity `ent`, if any.
pub open spec fn rival_by_ent(rs: Seq<Rival>, ent: u16) -> Option<int> {
    if exists|k: int| 0 <= k < rs.len() && (#[trigger] rs[k]).ent == ent {
        Some(choose|k: int| 0 <= k < rs.len() && (#[trigger] rs[k]).ent == ent && forall|q: int| 0 <= q < k ==> (#[trigger] rs[q]).ent != ent)
    } else {
        None
    }
}

/// The index of the first MC2-column rival on wizard entity `ent`.
pub open spec fn mc2_rival_by_ent(rs: Seq<Mc2Rival>, ent: u16) -> Option<int> {
    if exists|k: int| 0 <= k < rs.len() && (#[trigger] rs[k]).ent == ent {
        Some(choose|k: int| 0 <= k < rs.len() && (#[trigger] rs[k]).ent == ent && forall|q: int| 0 <= q < k ==> (#[trigger] rs[q]).ent != ent)
    } else {
        None
    }
}

/// The index of the first rival at player slot `slot`, if any.
pub open spec fn rival_by_slot(rs: Seq<Rival>, slot: u8) -> Option<int> {
    if exists|k: int| 0 <= k < rs.len() && (#[trigger] rs[k]).slot == slot {
        Some(choose|k: int| 0 <= k < rs.len() && (#[trigger] rs[k]).slot == slot && forall|q: int| 0 <= q < k ==> (#[trigger] rs[q]).slot != slot)
    } else {
        None
    }
}

/// The index of the first MC2-column rival at player slot `slot`.
pub open spec fn mc2_rival_by_slot(rs: Seq<Mc2Rival>, slot: u8) -> Option<int> {
    if exists|k: int| 0 <= k < rs.len() && (#[trigger] rs[k]).slot == slot {
        Some(choose|k: int| 0 <= k < rs.len() && (#[trigger] rs[k]).slot == slot && forall|q: int| 0 <= q < k ==> (#[trigger] rs[q]).slot != slot)
    } else {
        None
    }
}

/// The hate after one regression tick toward the baseline: below rises
/// by agg+1 (capped at the baseline), above decays by 256−agg (floored
/// at the baseline) unless a war flag pins it.
pub open spec fn hate_decay_spec(h: u16, agg: u16, war: bool) -> u16 {
    if h < HATE_NEUTRAL {
        if h + agg + 1 < HATE_NEUTRAL { (h + agg + 1) as u16 } else { HATE_NEUTRAL }
    } else if h > HATE_NEUTRAL && !war {
        if h - (256 - agg) > HATE_NEUTRAL { (h - (256 - agg)) as u16 } else { HATE_NEUTRAL }
    } else {
        h
    }
}

impl World {
    /// Every rival record is well formed and names a pool record.
    pub open spec fn rivals_wf(&self) -> bool {
        forall|k: int| 0 <= k < self.rivals.len() ==> (#[trigger] self.rivals[k]).wf() && (self.rivals[k].ent as int) < self.g.ent.len()
    }

    /// Every rival of both columns sits at a player slot under 8.
    pub open spec fn slots_ok(&self) -> bool {
        &&& self.rivals_wf()
        &&& forall|k: int| 0 <= k < self.mc2_rivals.len() ==> (#[trigger] self.mc2_rivals[k]).slot < 8
    }

    /// The player slot an owner tag resolves to: the human's sentinel
    /// is slot 0, a rival's wizard entity its rival's slot (the MC1
    /// column first, then the MC2 column).
    pub open spec fn owner_slot_w_spec(&self, owner: u16) -> Option<u8> {
        if owner == PLAYER_TARGET {
            Some(0u8)
        } else {
            match rival_by_ent(self.rivals@, owner) {
                Some(k) => Some(self.rivals[k].slot),
                None => match mc2_rival_by_ent(self.mc2_rivals@, owner) {
                    Some(k) => Some(self.mc2_rivals[k].slot),
                    None => None,
                },
            }
        }
    }

    /// The first rival on wizard entity `ent`.
    pub fn find_rival_by_ent(&self, ent: u16) -> (r: Option<usize>)
        ensures
            match r {
                Some(k) => rival_by_ent(self.rivals@, ent) == Some(k as int) && k < self.rivals.len(),
                None => rival_by_ent(self.rivals@, ent).is_none(),
            },
    {
        let mut k: usize = 0;
        while k < self.rivals.len()
            invariant
                k <= self.rivals.len(),
                forall|q: int| 0 <= q < k ==> (#[trigger] self.rivals@[q]).ent != ent,
            decreases self.rivals.len() - k,
        {
            if self.rivals[k].ent == ent {
                proof {
                    let rs = self.rivals@;
                    assert(rs[k as int].ent == ent);
                    let w = choose|j: int| 0 <= j < rs.len() && (#[trigger] rs[j]).ent == ent && forall|q: int| 0 <= q < j ==> (#[trigger] rs[q]).ent != ent;
                    if w < k {
                    } else if w > k {
                        assert(rs[k as int].ent != ent);
                    }
                }
                return Some(k);
            }
            k = k + 1;
        }
        None
    }

    /// The first MC2-column rival on wizard entity `ent`.
    pub fn find_mc2_rival_by_ent(&self, ent: u16) -> (r: Option<usize>)
        ensures
            match r {
                Some(k) => mc2_rival_by_ent(self.mc2_rivals@, ent) == Some(k as int) && k < self.mc2_rivals.len(),
                None => mc2_rival_by_ent(self.mc2_rivals@, ent).is_none(),
            },
    {
        let mut k: usize = 0;
        while k < self.mc2_rivals.len()
            invariant
                k <= self.mc2_rivals.len(),
                forall|q: int| 0 <= q < k ==> (#[trigger] self.mc2_rivals@[q]).ent != ent,
            decreases self.mc2_rivals.len() - k,
        {
            if self.mc2_rivals[k].ent == ent {
                proof {
                    let rs = self.mc2_rivals@;
                    assert(rs[k as int].ent == ent);
                    let w = choose|j: int| 0 <= j < rs.len() && (#[trigger] rs[j]).ent == ent && forall|q: int| 0 <= q < j ==> (#[trigger] rs[q]).ent != ent;
                    if w < k {
                    } else if w > k {
                        assert(rs[k as int].ent != ent);
                    }
                }
                return Some(k);
            }
            k = k + 1;
        }
        None
    }

    /// The first rival at player slot `slot`.
    pub fn find_rival_by_slot(&self, slot: u8) -> (r: Option<usize>)
        ensures
            match r {
                Some(k) => rival_by_slot(self.rivals@, slot) == Some(k as int) && k < self.rivals.len(),
                None => rival_by_slot(self.rivals@, slot).is_none(),
            },
    {
        let mut k: usize = 0;
        while k < self.rivals.len()
            invariant
                k <= self.rivals.len(),
                forall|q: int| 0 <= q < k ==> (#[trigger] self.rivals@[q]).slot != slot,
            decreases self.rivals.len() - k,
        {
            if self.rivals[k].slot == slot {
                proof {
                    let rs = self.rivals@;
                    assert(rs[k as int].slot == slot);
                    let w = choose|j: int| 0 <= j < rs.len() && (#[trigger] rs[j]).slot == slot && forall|q: int| 0 <= q < j ==> (#[trigger] rs[q]).slot != slot;
                    if w < k {
                    } else if w > k {
                        assert(rs[k as int].slot != slot);
                    }
                }
                return Some(k);
            }
            k = k + 1;
        }
        None
    }

    /// The first MC2-column rival at player slot `slot`.
    pub fn find_mc2_rival_by_slot(&self, slot: u8) -> (r: Option<usize>)
        ensures
            match r {
                Some(k) => mc2_rival_by_slot(self.mc2_rivals@, slot) == Some(k as int) && k < self.mc2_rivals.len(),
                None => mc2_rival_by_slot(self.mc2_rivals@, slot).is_none(),
            },
    {
        let mut k: usize = 0;
        while k < self.mc2_rivals.len()
            invariant
                k <= self.mc2_rivals.len(),
                forall|q: int| 0 <= q < k ==> (#[trigger] self.mc2_rivals@[q]).slot != slot,
            decreases self.mc2_rivals.len() - k,
        {
            if self.mc2_rivals[k].slot == slot {
                proof {
                    let rs = self.mc2_rivals@;
                    assert(rs[k as int].slot == slot);
                    let w = choose|j: int| 0 <= j < rs.len() && (#[trigger] rs[j]).slot == slot && forall|q: int| 0 <= q < j ==> (#[trigger] rs[q]).slot != slot;
                    if w < k {
                    } else if w > k {
                        assert(rs[k as int].slot != slot);
                    }
                }
                return Some(k);
            }
            k = k + 1;
        }
        None
    }

    /// Resolve an owner tag to a player slot (see [`Self::owner_slot_w_spec`]).
    pub fn rival_owner_slot(&self, owner: u16) -> (r: Option<u8>)
        ensures
            r == self.owner_slot_w_spec(owner),
            self.slots_ok() ==> (r matches Some(s) ==> s < 8),
    {
        if owner == PLAYER_TARGET {
            return Some(0);
        }
        match self.find_rival_by_ent(owner) {
            Some(k) => Some(self.rivals[k].slot),
            None => match self.find_mc2_rival_by_ent(owner) {
                Some(k) => Some(self.mc2_rivals[k].slot),
                None => None,
            },
        }
    }

    /// A wizard's mana ceiling by player slot (0 = the human; 0 when no
    /// wizard holds the slot).
    pub open spec fn wealth_spec(&self, slot: u8) -> u32 {
        if slot == 0 {
            self.player.mana_max
        } else {
            match rival_by_slot(self.rivals@, slot) {
                Some(k) => self.rivals[k].mana_max,
                None => match mc2_rival_by_slot(self.mc2_rivals@, slot) {
                    Some(k) => self.mc2_rivals[k].mana_max,
                    None => 0,
                },
            }
        }
    }

    /// A wizard's mana ceiling (the wealth term in the hate gates).
    pub fn wizard_wealth(&self, slot: u8) -> (w: u32)
        ensures
            w == self.wealth_spec(slot),
    {
        if slot == 0 {
            return self.player.mana_max;
        }
        match self.find_rival_by_slot(slot) {
            Some(k) => self.rivals[k].mana_max,
            None => match self.find_mc2_rival_by_slot(slot) {
                Some(k) => self.mc2_rivals[k].mana_max,
                None => 0,
            },
        }
    }

    /// The rival's castle: the first standing castle its wizard owns.
    pub fn rival_castle(&self, ent: u16) -> (r: Option<usize>)
        ensures
            r == self.castle_of_spec(ent),
            match r {
                Some(c) => 1 <= c < self.g.ent.len(),
                None => true,
            },
    {
        self.castle_of(ent)
    }

    /// Is the castle established (its first level-up committed)?
    pub open spec fn castle_bound_spec(&self, castle: Option<usize>) -> bool {
        match castle {
            Some(c) => 0 <= c < self.g.ent.len() && self.g.ent[c as int].flags & 2 != 0,
            None => false,
        }
    }

    /// Is the castle established (its first level-up committed)?
    pub fn castle_bound(&self, castle: Option<usize>) -> (b: bool)
        ensures
            b == self.castle_bound_spec(castle),
    {
        match castle {
            Some(c) => c < self.g.ent.len() && self.g.ent[c].flags & 2 != 0,
            None => false,
        }
    }

    /// Does the rival own an attack spell (fireball, lightning and
    /// their kin: spells 0, 15, 8, 17, 20, 7)?
    pub open spec fn has_offense_spec(&self, ri: int) -> bool {
        let o = self.rivals[ri].owned;
        o[0] != 0 || o[15] != 0 || o[8] != 0 || o[17] != 0 || o[20] != 0 || o[7] != 0
    }

    /// Does the rival own an attack spell?
    pub fn rival_has_offense(&self, ri: usize) -> (b: bool)
        requires
            ri < self.rivals.len(),
        ensures
            b == self.has_offense_spec(ri as int),
    {
        let o = &self.rivals[ri].owned;
        o[0] != 0 || o[15] != 0 || o[8] != 0 || o[17] != 0 || o[20] != 0 || o[7] != 0
    }

    /// The hate gate: hate toward `slot` strictly over the
    /// wealth-scaled threshold `50000 − (wealth/10)·agg/255` (saturating
    /// at 0).
    pub open spec fn hate_over_spec(&self, ri: int, slot: u8, wealth: u32) -> bool {
        let r = self.rivals[ri];
        let cut = (wealth / 10) * r.agg / 255;
        let threshold = if cut < 50000 { 50000 - cut } else { 0 };
        r.hate[slot as int] > threshold
    }

    /// The hate gate (see [`Self::hate_over_spec`]).
    pub fn hate_over(&self, ri: usize, slot: u8, wealth: u32) -> (b: bool)
        requires
            ri < self.rivals.len(),
            slot < 8,
            (wealth / 10) * self.rivals[ri as int].agg <= u32::MAX,
        ensures
            b == self.hate_over_spec(ri as int, slot, wealth),
    {
        let r = &self.rivals[ri];
        let cut = wealth / 10 * r.agg as u32 / 255;
        let threshold = 50_000u32.saturating_sub(cut);
        r.hate[slot as usize] as u32 > threshold
    }

    /// Bump the ledger: hate toward `shooter` rises by `amount`,
    /// saturating; a shooter outside the slots, or the rival itself,
    /// changes nothing.
    pub fn rival_add_hate(&mut self, ri: usize, shooter: u8, amount: u16)
        requires
            ri < old(self).rivals.len(),
        ensures
            shooter < 8 && old(self).rivals[ri as int].slot != shooter ==> {
                &&& final(self).rivals@ == old(self).rivals@.update(ri as int, final(self).rivals[ri as int])
                &&& final(self).rivals[ri as int] == (Rival { hate: final(self).rivals[ri as int].hate, ..old(self).rivals[ri as int] })
                &&& final(self).rivals[ri as int].hate@ == old(self).rivals[ri as int].hate@.update(
                    shooter as int,
                    (if old(self).rivals[ri as int].hate[shooter as int] + amount <= u16::MAX {
                        (old(self).rivals[ri as int].hate[shooter as int] + amount) as u16
                    } else {
                        u16::MAX
                    }),
                )
            },
            !(shooter < 8 && old(self).rivals[ri as int].slot != shooter) ==> final(self).rivals == old(self).rivals,
            *final(self) == (World { rivals: final(self).rivals, ..*old(self) }),
    {
        if shooter as usize >= 8 || self.rivals[ri].slot == shooter {
            return;
        }
        let h = self.rivals[ri].hate[shooter as usize].saturating_add(amount);
        self.rivals[ri].hate[shooter as usize] = h;
    }

    /// The war check: hate toward `shooter` strictly above the flat
    /// 50000 raises the war flag toward that slot; nothing else moves.
    pub fn rival_war_check(&mut self, ri: usize, shooter: u8)
        requires
            ri < old(self).rivals.len(),
        ensures
            (shooter < 8 && old(self).rivals[ri as int].slot != shooter
                && old(self).rivals[ri as int].hate[shooter as int] > WAR_THRESHOLD) ==> {
                &&& final(self).rivals@ == old(self).rivals@.update(ri as int, final(self).rivals[ri as int])
                &&& final(self).rivals[ri as int] == (Rival { war: final(self).rivals[ri as int].war, ..old(self).rivals[ri as int] })
                &&& final(self).rivals[ri as int].war@ == old(self).rivals[ri as int].war@.update(shooter as int, true)
            },
            !(shooter < 8 && old(self).rivals[ri as int].slot != shooter
                && old(self).rivals[ri as int].hate[shooter as int] > WAR_THRESHOLD) ==> final(self).rivals
                == old(self).rivals,
            *final(self) == (World { rivals: final(self).rivals, ..*old(self) }),
    {
        if shooter as usize >= 8 || self.rivals[ri].slot == shooter {
            return;
        }
        if self.rivals[ri].hate[shooter as usize] as u32 > WAR_THRESHOLD {
            self.rivals[ri].war[shooter as usize] = true;
        }
    }

    /// Hate regression toward the baseline, every slot at once (see
    /// [`hate_decay_spec`]).
    pub fn rival_hate_decay(&mut self, ri: usize)
        requires
            ri < old(self).rivals.len(),
            old(self).rivals[ri as int].agg <= 255,
        ensures
            final(self).rivals.len() == old(self).rivals.len(),
            forall|k: int| 0 <= k < old(self).rivals.len() && k != ri ==> final(self).rivals[k] == old(self).rivals[k],
            forall|p: int| 0 <= p < 8 ==> #[trigger] final(self).rivals[ri as int].hate[p] == hate_decay_spec(
                old(self).rivals[ri as int].hate[p],
                old(self).rivals[ri as int].agg,
                old(self).rivals[ri as int].war[p],
            ),
            final(self).rivals[ri as int] == (Rival { hate: final(self).rivals[ri as int].hate, ..old(self).rivals[ri as int] }),
            *final(self) == (World { rivals: final(self).rivals, ..*old(self) }),
    {
        let agg = self.rivals[ri].agg;
        let mut p: usize = 0;
        while p < 8
            invariant
                p <= 8,
                ri < self.rivals.len(),
                agg == old(self).rivals[ri as int].agg,
                agg <= 255,
                self.rivals.len() == old(self).rivals.len(),
                forall|k: int| 0 <= k < old(self).rivals.len() && k != ri ==> self.rivals[k] == old(self).rivals[k],
                forall|q: int| 0 <= q < p ==> #[trigger] self.rivals[ri as int].hate[q] == hate_decay_spec(
                    old(self).rivals[ri as int].hate[q],
                    agg,
                    old(self).rivals[ri as int].war[q],
                ),
                forall|q: int| p <= q < 8 ==> #[trigger] self.rivals[ri as int].hate[q] == old(self).rivals[ri as int].hate[q],
                self.rivals[ri as int] == (Rival { hate: self.rivals[ri as int].hate, ..old(self).rivals[ri as int] }),
                *self == (World { rivals: self.rivals, ..*old(self) }),
            decreases 8 - p,
        {
            let h = self.rivals[ri].hate[p];
            let war = self.rivals[ri].war[p];
            let nh: u16 = if h < HATE_NEUTRAL {
                if (h as u32) + (agg as u32) + 1 < HATE_NEUTRAL as u32 { h + agg + 1 } else { HATE_NEUTRAL }
            } else if h > HATE_NEUTRAL && !war {
                let d = h.saturating_sub(256 - agg);
                if d > HATE_NEUTRAL { d } else { HATE_NEUTRAL }
            } else {
                h
            };
            self.rivals[ri].hate[p] = nh;
            p = p + 1;
        }
    }
}

/// Hate regresses toward the baseline and never crosses it: a value
/// below rises but stays at most the baseline, a value above falls but
/// stays at least the baseline, and a war flag holds a raised value in
/// place.
pub proof fn law_hate_regresses(h: u16, agg: u16, war: bool)
    requires
        agg <= 255,
    ensures
        h < HATE_NEUTRAL ==> h < hate_decay_spec(h, agg, war) <= HATE_NEUTRAL,
        h > HATE_NEUTRAL && !war ==> HATE_NEUTRAL <= hate_decay_spec(h, agg, war) < h,
        h >= HATE_NEUTRAL && war ==> hate_decay_spec(h, agg, war) == h,
        h == HATE_NEUTRAL ==> hate_decay_spec(h, agg, war) == h,
{
}

/// The ascending indices below `n` at which `a` is set.
pub open spec fn true_indices(a: Seq<bool>, n: nat) -> Seq<usize>
    decreases n,
{
    if n == 0 {
        Seq::empty()
    } else {
        let p = true_indices(a, (n - 1) as nat);
        if a[n - 1] {
            p.push((n - 1) as usize)
        } else {
            p
        }
    }
}

/// The ascending indices below `n` at which `a` is nonzero.
pub open spec fn nonzero_indices(a: Seq<u16>, n: nat) -> Seq<usize>
    decreases n,
{
    if n == 0 {
        Seq::empty()
    } else {
        let p = nonzero_indices(a, (n - 1) as nat);
        if a[n - 1] != 0 {
            p.push((n - 1) as usize)
        } else {
            p
        }
    }
}

/// The printed name of a state.
pub open spec fn state_name_spec(s: AiState) -> Seq<char> {
    match s {
        AiState::Fresh => "Fresh"@,
        AiState::Upgrade => "Upgrade"@,
        AiState::Build => "Build"@,
        AiState::Possess => "Possess"@,
        AiState::RaidCastle => "RaidCastle"@,
        AiState::AttackWizard => "AttackWizard"@,
        AiState::RaidBalloon => "RaidBalloon"@,
        AiState::Home => "Home"@,
        AiState::Cruise => "Cruise"@,
        AiState::HuntMana => "HuntMana"@,
    }
}

/// Read-only snapshot of one rival's AI internals (diagnostics only).
pub struct RivalAiDebug {
    pub slot: u8,
    pub state: String,
    pub target: u16,
    pub known: Vec<usize>,
    pub owned: Vec<usize>,
    pub allowed: Vec<usize>,
    pub has_offense: bool,
    pub mana: u32,
    pub mana_max: u32,
    pub poverty: bool,
    pub burst: i16,
    pub castle_stored: Option<u32>,
}

/// The indices at which `a` is set, ascending.
fn set_indices(a: &[bool; 24]) -> (v: Vec<usize>)
    ensures
        v@ == true_indices(a@, 24),
{
    let mut v: Vec<usize> = Vec::new();
    let mut k: usize = 0;
    while k < 24
        invariant
            k <= 24,
            v@ == true_indices(a@, k as nat),
        decreases 24 - k,
    {
        if a[k] {
            v.push(k);
        }
        k = k + 1;
    }
    v
}

/// The indices at which `a` is nonzero, ascending.
fn nonzero_set(a: &[u16; 24]) -> (v: Vec<usize>)
    ensures
        v@ == nonzero_indices(a@, 24),
{
    let mut v: Vec<usize> = Vec::new();
    let mut k: usize = 0;
    while k < 24
        invariant
            k <= 24,
            v@ == nonzero_indices(a@, k as nat),
        decreases 24 - k,
    {
        if a[k] != 0 {
            v.push(k);
        }
        k = k + 1;
    }
    v
}

impl World {
    /// A target's signature: 0 for none, the sentinel for the human,
    /// else team + model + class·128 (16-bit), where the team of a
    /// human-owned record reads as the imported carpet's slot when one
    /// is pooled.
    pub open spec fn target_sig_spec(&self, target: u16) -> u16 {
        if target == 0 {
            0
        } else if target == PLAYER_TARGET {
            PLAYER_TARGET
        } else {
            let e = self.g.ent[target as int];
            let team = if e.id24 == PLAYER_TARGET && self.mc1_carpet_slot != 0 {
                self.mc1_carpet_slot
            } else {
                e.id24
            };
            ((team + e.model65 + e.class64 * 128) % 0x10000) as u16
        }
    }

    /// Is `target` a pool record or one of the two sentinels?
    pub open spec fn target_ok(&self, target: u16) -> bool {
        target == 0 || target == PLAYER_TARGET || (target as int) < self.g.ent.len()
    }

    /// A target's signature (see [`Self::target_sig_spec`]).
    pub fn target_sig(&self, target: u16) -> (sig: u16)
        requires
            self.target_ok(target),
        ensures
            sig == self.target_sig_spec(target),
    {
        if target == 0 {
            return 0;
        }
        if target == PLAYER_TARGET {
            return PLAYER_TARGET;
        }
        let e = &self.g.ent[target as usize];
        let team: u16 = if e.id24 == PLAYER_TARGET && self.mc1_carpet_slot != 0 {
            self.mc1_carpet_slot
        } else {
            e.id24
        };
        ((team as u32 + e.model65 as u32 + (e.class64 as u32) * 128) % 0x10000) as u16
    }

    /// Target staleness: the signature compare and nothing else — no
    /// life test, no free test; no target is never alive, and the human
    /// is alive exactly under the sentinel signature.
    pub open spec fn target_alive_spec(&self, target: u16, sig: u16) -> bool {
        if target == 0 {
            false
        } else if target == PLAYER_TARGET {
            sig == PLAYER_TARGET
        } else {
            self.target_sig_spec(target) == sig
        }
    }

    /// Target staleness (see [`Self::target_alive_spec`]).
    pub fn target_alive(&self, target: u16, sig: u16) -> (b: bool)
        requires
            self.target_ok(target),
        ensures
            b == self.target_alive_spec(target, sig),
    {
        if target == 0 {
            return false;
        }
        if target == PLAYER_TARGET {
            return sig == PLAYER_TARGET;
        }
        self.target_sig(target) == sig
    }

    /// Enter state `s` on `target`, storing the target's signature; a
    /// real target is also stamped on the wizard entity's target lane.
    pub fn set_rival_state(&mut self, ri: usize, s: AiState, target: u16)
        requires
            ri < old(self).rivals.len(),
            (old(self).rivals[ri as int].ent as int) < old(self).g.ent.len(),
            old(self).target_ok(target),
        ensures
            final(self).rivals@ == old(self).rivals@.update(
                ri as int,
                (Rival { state: s, target, target_sig: old(self).target_sig_spec(target), ..old(self).rivals[ri as int] }),
            ),
            target != 0 ==> final(self).g.ent@ == old(self).g.ent@.update(
                old(self).rivals[ri as int].ent as int,
                (Ent { f146: target, ..old(self).g.ent[old(self).rivals[ri as int].ent as int] }),
            ),
            target == 0 ==> final(self).g.ent == old(self).g.ent,
            final(self).g == (Gen { ent: final(self).g.ent, ..old(self).g }),
            *final(self) == (World { rivals: final(self).rivals, g: final(self).g, ..*old(self) }),
    {
        let sig = self.target_sig(target);
        self.rivals[ri].state = s;
        self.rivals[ri].target = target;
        self.rivals[ri].target_sig = sig;
        if target != 0 {
            let ent = self.rivals[ri].ent as usize;
            self.g.ent[ent].f146 = target;
        }

    }

    /// The wizard record of player slot `slot` (a rival's, the MC1
    /// column first), if any.
    pub open spec fn wizard_ent_spec(&self, slot: u8) -> Option<u16> {
        match rival_by_slot(self.rivals@, slot) {
            Some(k) => Some(self.rivals[k].ent),
            None => match mc2_rival_by_slot(self.mc2_rivals@, slot) {
                Some(k) => Some(self.mc2_rivals[k].ent),
                None => None,
            },
        }
    }

    /// A wizard's live position by slot: the human's pose while he is
    /// alive; a rival's entity position while it is in the alive state.
    pub open spec fn wizard_pos_spec(&self, slot: u8) -> Option<(u16, u16, i16)> {
        if slot == 0 {
            if self.player.state == LifeState::Alive { Some(self.human_pose) } else { None }
        } else {
            match self.wizard_ent_spec(slot) {
                Some(w) => {
                    let e = self.g.ent[w as int];
                    if e.tick70 == 1 { Some((e.x, e.y, e.z)) } else { None }
                },
                None => None,
            }
        }
    }

    /// Every MC1 and MC2 rival names a pool record.
    pub open spec fn wizard_ents_ok(&self) -> bool {
        &&& forall|k: int| 0 <= k < self.rivals.len() ==> ((#[trigger] self.rivals[k]).ent as int) < self.g.ent.len()
        &&& forall|k: int| 0 <= k < self.mc2_rivals.len() ==> ((#[trigger] self.mc2_rivals[k]).ent as int) < self.g.ent.len()
    }

    /// A wizard's live position by slot (see [`Self::wizard_pos_spec`]).
    pub fn wizard_pos(&self, slot: u8) -> (r: Option<(u16, u16, i16)>)
        requires
            self.wizard_ents_ok(),
        ensures
            r == self.wizard_pos_spec(slot),
    {
        if slot == 0 {
            return if self.player.state == LifeState::Alive { Some(self.human_pose) } else { None };
        }
        let ent: u16 = match self.find_rival_by_slot(slot) {
            Some(k) => self.rivals[k].ent,
            None => match self.find_mc2_rival_by_slot(slot) {
                Some(k) => self.mc2_rivals[k].ent,
                None => return None,
            },
        };
        let e = &self.g.ent[ent as usize];
        if e.tick70 == 1 { Some((e.x, e.y, e.z)) } else { None }
    }

    /// The diagnostic record of rival `ri`.
    pub open spec fn debug_ok(&self, ri: int, d: RivalAiDebug) -> bool {
        let r = self.rivals[ri];
        &&& d.slot == r.slot
        &&& d.state@ == state_name_spec(r.state)
        &&& d.target == r.target
        &&& d.known@ == true_indices(r.known@, 24)
        &&& d.owned@ == nonzero_indices(r.owned@, 24)
        &&& d.allowed@ == true_indices(r.allowed@, 24)
        &&& d.has_offense == self.has_offense_spec(ri)
        &&& d.mana == r.mana
        &&& d.mana_max == r.mana_max
        &&& d.poverty == r.poverty
        &&& d.burst == r.burst
        &&& d.castle_stored == (match self.castle_of_spec(r.ent) {
            Some(c) => Some((if self.g.ent[c as int].f140 > 0 { self.g.ent[c as int].f140 } else { 0 }) as u32),
            None => None::<u32>,
        })
    }

    /// Read-only AI diagnostic dump, one record per rival in roster
    /// order (no state mutation).
    pub fn debug_rival_ai(&self) -> (v: Vec<RivalAiDebug>)
        ensures
            v.len() == self.rivals.len(),
            forall|k: int| 0 <= k < v.len() ==> self.debug_ok(k, #[trigger] v[k]),
    {
        let mut v: Vec<RivalAiDebug> = Vec::new();
        let mut ri: usize = 0;
        while ri < self.rivals.len()
            invariant
                ri <= self.rivals.len(),
                v.len() == ri,
                forall|k: int| 0 <= k < v.len() ==> self.debug_ok(k, #[trigger] v[k]),
            decreases self.rivals.len() - ri,
        {
            let r = &self.rivals[ri];
            let castle = self.rival_castle(r.ent);
            let stored: Option<u32> = match castle {
                Some(c) => {
                    let f = self.g.ent[c].f140;
                    Some(if f > 0 { f as u32 } else { 0 })
                },
                None => None,
            };
            let d = RivalAiDebug {
                slot: r.slot,
                state: r.state.name().to_owned(),
                target: r.target,
                known: set_indices(&r.known),
                owned: nonzero_set(&r.owned),
                allowed: set_indices(&r.allowed),
                has_offense: self.rival_has_offense(ri),
                mana: r.mana,
                mana_max: r.mana_max,
                poverty: r.poverty,
                burst: r.burst,
                castle_stored: stored,
            };
            v.push(d);
            ri = ri + 1;
        }
        v
    }
}

/// What a rival spawned at `slot` from `cfg` carries: the config's
/// book as its known spells (tokens only for book spells), learn mask
/// and personality, a fresh brain, 1000 mana of 1000, no war, and hate
/// at the baseline except toward later newcomers.
pub open spec fn spawned_from(r: Rival, slot: u8, cfg: RivalConfig) -> bool {
    &&& r.wf()
    &&& r.slot == slot
    &&& forall|s: int| 0 <= s < 24 ==> #[trigger] r.known[s] == cfg.book[s]
    &&& forall|s: int| 0 <= s < 24 && #[trigger] r.owned[s] != 0 ==> cfg.book[s]
    &&& r.allowed == cfg.allowed
    &&& r.agg == cfg.aggression
    &&& r.acc == cfg.accuracy
    &&& r.tempo == cfg.tempo
    &&& r.state == AiState::Fresh
    &&& r.mana == 1000
    &&& r.mana_max == 1000
    &&& r.target == 0
    &&& r.grace == 100
    &&& !r.eliminated
    &&& forall|p: int| 0 <= p < 8 ==> !#[trigger] r.war[p]
    &&& forall|p: int| 0 <= p < 8 ==> #[trigger] r.hate[p] == HATE_NEUTRAL || r.hate[p] == HATE_RESPAWN
}

/// A rival just built by [`Rival::new`] for `slot` on `ent` from `cfg`,
/// up to its book (known, owned, acquisition list).
pub open spec fn fresh_but_book(r: Rival, slot: u8, ent: u16, cfg: RivalConfig) -> bool {
    &&& r.wf()
    &&& r.slot == slot
    &&& r.ent == ent
    &&& r.allowed == cfg.allowed
    &&& r.agg == cfg.aggression
    &&& r.acc == cfg.accuracy
    &&& r.tempo == cfg.tempo
    &&& r.state == AiState::Fresh
    &&& r.mana == 1000
    &&& r.mana_max == 1000
    &&& r.target == 0
    &&& r.grace == 100
    &&& !r.eliminated
    &&& forall|p: int| 0 <= p < 8 ==> !#[trigger] r.war[p]
    &&& forall|p: int| 0 <= p < 8 ==> #[trigger] r.hate[p] == HATE_NEUTRAL
}

/// One spell's countdown step from `r0` to `r1` under a running
/// clock, `g` the chassis afterwards: an expiring countdown (1, spell
/// not owned) is cleared and the spell becomes known, and the rival
/// then owns its own (12, spell) token — or nothing, only when the
/// pool was full; a running one (above 1) ticks down; owned spells and
/// idle countdowns stay.
pub open spec fn learn_step(r0: Rival, r1: Rival, s: int, g: &Gen) -> bool {
    if r0.owned[s] == 0 && r0.learn[s] == 1 {
        &&& r1.learn[s] == 0
        &&& r1.known[s]
        &&& r1.owned[s] == 0 ==> g.free.len() == 0
        &&& r1.owned[s] != 0 ==> {
            let e = g.ent[r1.owned[s] as int];
            &&& (r1.owned[s] as int) < g.ent.len()
            &&& e.class64 == 12
            &&& e.model65 == s
            &&& e.f144 == r0.ent
        }
    } else {
        &&& r1.owned[s] == r0.owned[s]
        &&& r1.known[s] == r0.known[s]
        &&& r1.learn[s] == (if r0.owned[s] == 0 && r0.learn[s] > 1 {
            r0.learn[s] - 1
        } else {
            r0.learn[s] as int
        })
    }
}

/// The mana-regen delta after a burst token's paid tick: the full
/// tick debits the cast's cost (at most `i32::MAX`), replacing a gain
/// or deepening a debt; a later tick pins a positive delta to 0.
pub open spec fn burst_delta(md: i32, cost: u32, full: bool) -> int {
    let c: int = if cost > i32::MAX { i32::MAX as int } else { cost as int };
    if full {
        if md >= 0 {
            -c
        } else {
            md - c
        }
    } else if md > 0 {
        0
    } else {
        md as int
    }
}

/// The pool after a live burst token `m`'s tick for carpet `i`: a
/// passed gate raises the owner bit `bit` on the carpet, a refused one
/// drops the counter to 1; then a positive counter steps down.
pub open spec fn burst_ents(ents: Seq<Ent>, m: int, i: int, bit: u32, gate: bool) -> Seq<Ent> {
    let mid = if gate {
        ents.update(i, Ent { flags: ents[i].flags | bit, ..ents[i] })
    } else {
        ents.update(m, Ent { f26: 1, ..ents[m] })
    };
    mid.update(m, Ent { f26: if mid[m].f26 > 0 { (mid[m].f26 - 1) as i16 } else { mid[m].f26 }, ..mid[m] })
}

/// Every live (nonzero-class) record of `a` stands unchanged in `b`.
pub open spec fn keeps_live_records(a: &Gen, b: &Gen) -> bool {
    &&& b.ent.len() == a.ent.len()
    &&& forall|j: int| 0 <= j < a.ent.len() && (#[trigger] a.ent[j]).class64 != 0 ==> b.ent[j] == a.ent[j]
}

/// A plain record of class `class`, model `model` at (x, y, z).
pub open spec fn record_spec(i: int, class: u8, model: u8, x: u16, y: u16, z: i16) -> Ent {
    Ent { class64: class, model65: model, x, y, z, ..fresh_ent(i) }
}

/// The owned class-12 token of `spell` in state `state`, standing at
/// the owner's position and tagged with the owner.
pub open spec fn token_spec(i: int, spell: u8, state: u8, owner: u16, pos: (u16, u16, i16)) -> Ent {
    Ent {
        class64: 12,
        model65: spell,
        tick70: state,
        x: pos.0,
        y: pos.1,
        z: pos.2,
        flags: fresh_ent(i).flags | 1,
        f26: 0,
        f144: owner,
        ..fresh_ent(i)
    }
}

/// The starting castle of the wizard on `ent` at player slot `slot`:
/// level `lvl`, its team flag art, the level's capacity and a full
/// store (capped at 320000).
pub open spec fn start_castle_spec(i: int, ent: u16, slot: u8, lvl: u8, cap: i32, pos: (u16, u16, i16)) -> Ent {
    Ent {
        class64: 3,
        model65: 2,
        x: pos.0,
        y: pos.1,
        z: pos.2,
        id24: ent,
        f26: lvl as i16,
        type86: (177 + slot) as u16,
        f136: cap,
        f140: (if cap < 0 { 0 } else if cap > 320000 { 320000 } else { cap }),
        ..fresh_ent(i)
    }
}

impl Gen {
    /// A plain class/model record at (x, y, z) off the allocator.
    pub fn spawn_record(&mut self, class: u8, model: u8, x: u16, y: u16, z: i16) -> (r: Option<usize>)
        requires
            old(self).wf(),
            class != 0,
        ensures
            final(self).wf(),
            final(self).keeps_world(old(self)),
            final(self).sounds == old(self).sounds,
            keeps_live_records(old(self), final(self)),
            match r {
                Some(i) => {
                    &&& old(self).free.len() > 0
                    &&& i == old(self).free@.last()
                    &&& 1 <= i < final(self).ent.len()
                    &&& final(self).free@ == old(self).free@.drop_last()
                    &&& final(self).ent@ == old(self).ent@.update(i as int, record_spec(i as int, class, model, x, y, z))
                },
                None => {
                    &&& old(self).free.len() == 0
                    &&& final(self).free@ == old(self).free@
                    &&& final(self).ent == old(self).ent
                },
            },
    {
        proof {
            if old(self).free.len() > 0 {
                assert(old(self).ent[old(self).free@.last() as int].class64 == 0);
            }
        }
        let i = match self.new_event() {
            Some(i) => i,
            None => return None,
        };
        self.ent[i].class64 = class;
        self.ent[i].model65 = model;
        self.link(i, x, y, z);
        assert(self.ent@ =~= old(self).ent@.update(i as int, record_spec(i as int, class, model, x, y, z)));
        Some(i)
    }
}

impl World {
    /// The world's other fields, beside the chassis and the roster.
    pub open spec fn same_but_g_rivals(&self, o: &World) -> bool {
        *self == (World { g: self.g, rivals: self.rivals, entities_dirty: self.entities_dirty, ..*o })
    }

    /// The class-12 token of `spell` minted for the wizard on `owner`,
    /// standing at the wizard: state `3·spell` under the retail
    /// encoding, `manifest_base + spell` natively; owned (flags bit 0)
    /// and tagged with the owner.
    pub fn mint_manifestation(&mut self, spell: usize, owner: u16) -> (r: Option<usize>)
        requires
            old(self).g.wf(),
            spell < 24,
            (owner as int) < old(self).g.ent.len(),
        ensures
            final(self).g.wf(),
            keeps_live_records(&old(self).g, &final(self).g),
            final(self).g.keeps_world(&old(self).g),
            final(self).g.sounds == old(self).g.sounds,
            *final(self) == (World { g: final(self).g, ..*old(self) }),
            match r {
                Some(m) => {
                    &&& old(self).g.free.len() > 0
                    &&& m == old(self).g.free@.last()
                    &&& 1 <= m < final(self).g.ent.len()
                    &&& final(self).g.free@ == old(self).g.free@.drop_last()
                    &&& final(self).g.ent@ == old(self).g.ent@.update(
                        m as int,
                        token_spec(
                            m as int,
                            spell as u8,
                            (if old(self).strict_retail { (spell * 3) as u8 } else { ((old(self).manifest_base + spell) % 256) as u8 }),
                            owner,
                            (old(self).g.ent[owner as int].x, old(self).g.ent[owner as int].y, old(self).g.ent[owner as int].z),
                        ),
                    )
                },
                None => {
                    &&& old(self).g.free.len() == 0
                    &&& final(self).g.free@ == old(self).g.free@
                    &&& final(self).g.ent == old(self).g.ent
                    &&& final(self).g.sounds == old(self).g.sounds
                },
            },
    {
        let wx = self.g.ent[owner as usize].x;
        let wy = self.g.ent[owner as usize].y;
        let wz = self.g.ent[owner as usize].z;
        let state: u8 = if self.strict_retail {
            (spell * 3) as u8
        } else {
            ((self.manifest_base as usize + spell) % 256) as u8
        };
        let m = match self.g.spawn_record(12, spell as u8, wx, wy, wz) {
            Some(m) => m,
            None => return None,
        };
        self.g.ent[m].tick70 = state;
        self.g.ent[m].flags = self.g.ent[m].flags | 1;
        self.g.ent[m].f26 = 0;
        self.g.ent[m].f144 = owner;
        assert(self.g.ent@ =~= old(self).g.ent@.update(
            m as int,
            token_spec(m as int, spell as u8, state, owner, (wx, wy, wz)),
        ));
        Some(m)
    }

    /// The starting castle of the wizard on `ent` (player slot `slot`):
    /// a (3,2) castle at the wizard on the ground, level
    /// `castle_level − 1` (at most 7), the team flag art, the level's
    /// capacity from the MC1 ladder and a full store; sound 30.
    pub fn spawn_starting_castle(&mut self, ent: u16, slot: u8, castle_level: u8) -> (r: Option<usize>)
        requires
            old(self).g.wf(),
            (ent as int) < old(self).g.ent.len(),
            1 <= castle_level,
            slot < 8,
        ensures
            final(self).g.wf(),
            keeps_live_records(&old(self).g, &final(self).g),
            final(self).g.keeps_world(&old(self).g),
            *final(self) == (World { g: final(self).g, ..*old(self) }),
            match r {
                Some(c) => {
                    let lvl: u8 = if castle_level - 1 < 7 { (castle_level - 1) as u8 } else { 7u8 };
                    let w = old(self).g.ent[ent as int];
                    &&& old(self).g.free.len() > 0
                    &&& c == old(self).g.free@.last()
                    &&& 1 <= c < final(self).g.ent.len()
                    &&& final(self).g.free@ == old(self).g.free@.drop_last()
                    &&& final(self).g.ent@ == old(self).g.ent@.update(
                        c as int,
                        start_castle_spec(
                            c as int,
                            ent,
                            slot,
                            lvl,
                            old(self).mc1_castle_cap[lvl as int],
                            (w.x, w.y, old(self).g.ground_spec(w.x, w.y) as i16),
                        ),
                    )
                    &&& final(self).g.sounds@ == old(self).g.sounds@.push((30u8, c as u16))
                },
                None => {
                    &&& old(self).g.free.len() == 0
                    &&& final(self).g.free@ == old(self).g.free@
                    &&& final(self).g.ent == old(self).g.ent
                    &&& final(self).g.sounds == old(self).g.sounds
                },
            },
    {
        let wx = self.g.ent[ent as usize].x;
        let wy = self.g.ent[ent as usize].y;
        let gz = self.g.ground_z(wx, wy) as i16;
        let c = match self.g.spawn_record(3, 2, wx, wy, gz) {
            Some(c) => c,
            None => return None,
        };
        let lvl: u8 = if castle_level - 1 < 7 { castle_level - 1 } else { 7 };
        let cap = self.mc1_castle_cap[lvl as usize];
        self.g.ent[c].id24 = ent;
        self.g.ent[c].f26 = lvl as i16;
        self.g.ent[c].type86 = 177 + slot as u16;
        self.g.ent[c].f136 = cap;
        self.g.ent[c].f140 = if cap < 0 { 0 } else if cap > 320000 { 320000 } else { cap };
        assert(self.g.ent@ =~= old(self).g.ent@.update(
            c as int,
            start_castle_spec(c as int, ent, slot, lvl, cap, (wx, wy, gz)),
        ));
        self.g.snd(30, c);
        Some(c)
    }
}

/// The tile-centre world coordinate of marker cell `m` (16-bit).
pub open spec fn marker_coord(m: u16) -> u16 {
    ((m * 256 + 128) % 0x10000) as u16
}

impl World {
    /// The start marker of player slot `slot`, else the human's.
    pub open spec fn marker_spec(&self, slot: u8) -> Option<(u16, u16)> {
        match self.start_markers[slot as int] {
            Some(m) => Some(m),
            None => self.start_markers[0],
        }
    }

    /// The wizard carpet of a freshly spawned rival: a (3,1) record at
    /// the marker's tile centre, 256 above the ground.
    pub open spec fn wizard_record_ok(&self, e: Ent, slot: u8) -> bool {
        match self.marker_spec(slot) {
            Some(m) => {
                &&& e.class64 == 3
                &&& e.model65 == 1
                &&& e.x == marker_coord(m.0)
                &&& e.y == marker_coord(m.1)
                &&& e.type86 == 272 + slot
                &&& e.f140 == 1000
            },
            None => false,
        }
    }


    /// Mint the level-start book of a fresh rival on wizard record `i`:
    /// every book spell becomes known, and each one the pool has room
    /// for gets an owned token, appended to the acquisition list.
    #[verifier::spinoff_prover]
    pub fn mint_book(&mut self, r: &mut Rival, i: usize, cfg: &RivalConfig)
        requires
            old(self).g.wf(),
            1 <= i < old(self).g.ent.len(),
            old(self).g.ent[i as int].class64 == 3,
            fresh_but_book(*old(r), old(r).slot, i as u16, *cfg),
            forall|q: int| 0 <= q < 24 ==> !#[trigger] old(r).known[q],
            forall|q: int| 0 <= q < 24 ==> #[trigger] old(r).owned[q] == 0,
        ensures
            final(self).g.wf(),
            keeps_live_records(&old(self).g, &final(self).g),
            final(self).g.ent.len() == old(self).g.ent.len(),
            final(self).g.free.len() <= old(self).g.free.len(),
            final(self).g.ent[i as int] == old(self).g.ent[i as int],
            final(self).g == (Gen { ent: final(self).g.ent, free: final(self).g.free, sounds: final(self).g.sounds, ..old(self).g }),
            *final(self) == (World { g: final(self).g, ..*old(self) }),
            fresh_but_book(*final(r), old(r).slot, i as u16, *cfg),
            forall|q: int| 0 <= q < 24 ==> #[trigger] final(r).known[q] == cfg.book[q],
            forall|q: int| 0 <= q < 24 && #[trigger] final(r).owned[q] != 0 ==> cfg.book[q],
    {
        let ghost wiz = self.g.ent[i as int];
        let ghost g1 = self.g;
        let ghost slot = r.slot;
        let mut s: usize = 0;
        while s < 24
            invariant
                0 <= s <= 24,
                self.g.wf(),
                1 <= i < self.g.ent.len(),
                self.g.ent.len() == g1.ent.len(),
                self.g.free.len() <= g1.free.len(),
                self.g.ent[i as int] == wiz,
                wiz.class64 == 3,
                keeps_live_records(&g1, &self.g),
                self.g == (Gen { ent: self.g.ent, free: self.g.free, sounds: self.g.sounds, ..g1 }),
                *self == (World { g: self.g, ..*old(self) }),
                g1 == old(self).g,
                fresh_but_book(*r, slot, i as u16, *cfg),
                forall|q: int| 0 <= q < s ==> #[trigger] r.known[q] == cfg.book[q],
                forall|q: int| s <= q < 24 ==> !#[trigger] r.known[q],
                forall|q: int| 0 <= q < 24 && #[trigger] r.owned[q] != 0 ==> cfg.book[q],
            decreases 24 - s,
        {
            if cfg.book[s] {
                r.known[s] = true;
                let ghost gb = self.g;
                match self.mint_manifestation(s, i as u16) {
                    Some(m) => {
                        proof {
                            assert(gb.ent[gb.free@.last() as int].class64 == 0);
                        }
                        r.owned[s] = m as u16;
                        r.acq_push(m as u16);
                    },
                    None => {},
                }
            }
            s = s + 1;
        }
    }

    /// Every rival on the roster hates the newcomer at slot `slot` at
    /// the respawn level.
    pub fn hate_newcomer(&mut self, slot: u8)
        requires
            slot < 8,
        ensures
            final(self).rivals.len() == old(self).rivals.len(),
            forall|q: int| 0 <= q < old(self).rivals.len() ==> #[trigger] final(self).rivals[q] == (Rival {
                hate: final(self).rivals[q].hate,
                ..old(self).rivals[q]
            }),
            forall|q: int| 0 <= q < old(self).rivals.len() ==> (#[trigger] final(self).rivals[q]).hate@
                == old(self).rivals[q].hate@.update(slot as int, HATE_RESPAWN),
            *final(self) == (World { rivals: final(self).rivals, ..*old(self) }),
    {
        let ghost rs0 = self.rivals@;
        let mut k: usize = 0;
        while k < self.rivals.len()
            invariant
                k <= self.rivals.len(),
                self.rivals.len() == rs0.len(),
                rs0 == old(self).rivals@,
                slot < 8,
                forall|q: int| 0 <= q < k ==> #[trigger] self.rivals[q] == (Rival { hate: self.rivals[q].hate, ..rs0[q] }),
                forall|q: int| 0 <= q < k ==> (#[trigger] self.rivals[q]).hate@ == rs0[q].hate@.update(slot as int, HATE_RESPAWN),
                forall|q: int| k <= q < rs0.len() ==> #[trigger] self.rivals[q] == rs0[q],
                *self == (World { rivals: self.rivals, ..*old(self) }),
            decreases rs0.len() - k,
        {
            self.rivals[k].hate[slot as usize] = HATE_RESPAWN;
            proof {
                assert(self.rivals[k as int].hate@ =~= rs0[k as int].hate@.update(slot as int, HATE_RESPAWN));
            }
            k = k + 1;
        }
    }

    /// The carpet record of the rival at player slot `slot`: a (3,1)
    /// record at the start marker's tile centre (the human's marker
    /// when the slot has none), 256 above the ground, art row
    /// 272 + slot, full life, 1000 mana on its mirror.
    #[verifier::spinoff_prover]
    #[verifier::rlimit(40)]
    pub fn spawn_wizard_carpet(&mut self, slot: u8) -> (r: Option<usize>)
        requires
            old(self).g.wf(),
            1 <= slot < 8,
        ensures
            final(self).g.wf(),
            keeps_live_records(&old(self).g, &final(self).g),
            *final(self) == (World { g: final(self).g, ..*old(self) }),
            final(self).g == (Gen { ent: final(self).g.ent, free: final(self).g.free, ..old(self).g }),
            final(self).g.ent.len() == old(self).g.ent.len(),
            match r {
                Some(i) => {
                    &&& 1 <= i < final(self).g.ent.len()
                    &&& final(self).g.free.len() < old(self).g.free.len()
                    &&& final(self).wizard_record_ok(final(self).g.ent[i as int], slot)
                    &&& forall|j: int| 0 <= j < old(self).g.ent.len() && j != i ==> final(self).g.ent[j] == old(self).g.ent[j]
                },
                None => {
                    &&& final(self).g.ent == old(self).g.ent
                    &&& final(self).g.free@ == old(self).g.free@
                    &&& (old(self).marker_spec(slot).is_none() || old(self).g.free.len() == 0)
                },
            },
    {
        let marker = match self.start_markers[slot as usize] {
            Some(m) => Some(m),
            None => self.start_markers[0],
        };
        let (mx, my) = match marker {
            Some(m) => m,
            None => return None,
        };
        let x: u16 = (((mx as u32) * 256 + 128) % 0x10000) as u16;
        let y: u16 = (((my as u32) * 256 + 128) % 0x10000) as u16;
        let z: i16 = (self.g.ground_z(x, y) + 256) as i16;
        let i = match self.g.spawn_record(3, 1, x, y, z) {
            Some(i) => i,
            None => return None,
        };
        let ghost g0 = self.g;
        self.g.ent[i].type86 = 272 + slot as u16;
        self.g.refill_life(i);
        self.g.ent[i].f140 = 1000;
        proof {
            lemma_wf_same_classes(&g0, &self.g);
        }
        Some(i)
    }

    /// The rival record of player slot `slot` on carpet `i`, built from
    /// `cfg`: its book minted, its starting castle spawned when the
    /// config asks for one and the book holds the castle spell.
    #[verifier::spinoff_prover]
    pub fn build_rival(&mut self, slot: u8, i: usize, cfg: &RivalConfig) -> (r: Rival)
        requires
            old(self).g.wf(),
            1 <= slot < 8,
            1 <= i < old(self).g.ent.len(),
            old(self).g.ent[i as int].class64 == 3,
        ensures
            final(self).g.wf(),
            keeps_live_records(&old(self).g, &final(self).g),
            final(self).g.ent.len() == old(self).g.ent.len(),
            final(self).g.free.len() <= old(self).g.free.len(),
            final(self).g.ent[i as int] == old(self).g.ent[i as int],
            final(self).g == (Gen { ent: final(self).g.ent, free: final(self).g.free, sounds: final(self).g.sounds, ..old(self).g }),
            *final(self) == (World { g: final(self).g, ..*old(self) }),
            spawned_from(r, slot, *cfg),
            r.ent == i,
            r.hate@ == seq![HATE_NEUTRAL, HATE_NEUTRAL, HATE_NEUTRAL, HATE_NEUTRAL, HATE_NEUTRAL, HATE_NEUTRAL, HATE_NEUTRAL, HATE_NEUTRAL],
    {
        let mut r = Rival::new(slot, i as u16, cfg);
        self.mint_book(&mut r, i, cfg);
        if cfg.castle_level > 0 && r.known[16] {
            let ghost gc = self.g;
            match self.spawn_starting_castle(i as u16, slot, cfg.castle_level) {
                Some(c) => {
                    proof {
                        assert(gc.ent[gc.free@.last() as int].class64 == 0);
                    }
                },
                None => {},
            }
        }
        proof {
            assert(r.hate@ =~= seq![HATE_NEUTRAL, HATE_NEUTRAL, HATE_NEUTRAL, HATE_NEUTRAL, HATE_NEUTRAL, HATE_NEUTRAL, HATE_NEUTRAL, HATE_NEUTRAL]);
        }
        r
    }

    /// Spawn the rival of player slot `slot` from `cfg`: its carpet at
    /// the start marker (the human's when the slot has none), its
    /// level-start book minted as owned tokens, its starting castle when
    /// the config asks for one and the book holds the castle spell;
    /// every earlier rival then hates the newcomer at the respawn level,
    /// and the slot's team resolves to the new carpet. Nothing happens
    /// without a marker or with a full pool.
    #[verifier::spinoff_prover]
    #[verifier::rlimit(60)]
    pub fn spawn_rival(&mut self, slot: u8, cfg: &RivalConfig) -> (spawned: bool)
        requires
            old(self).g.wf(),
            old(self).rivals_wf(),
            1 <= slot < 8,
        ensures
            spawn_step(old(self), final(self), slot, *cfg, spawned),
    {
        let i = match self.spawn_wizard_carpet(slot) {
            Some(i) => i,
            None => return false,
        };
        let r = self.build_rival(slot, i, cfg);
        self.hate_newcomer(slot);
        let ghost rs1 = self.rivals@;
        self.g.rival_ents[slot as usize] = i as u16;
        proof {
            assert(self.g.rival_ents@ =~= old(self).g.rival_ents@.update(slot as int, i as u16));
        }
        self.rivals.push(r);
        self.entities_dirty = true;
        proof {
            assert(self.rivals@ == rs1.push(r));
            assert forall|k: int| 0 <= k < old(self).rivals.len() implies #[trigger] self.rivals[k] == rs1[k] by {}
        }
        true
    }
}

/// One `spawn_rival` step from `a` to `b` at player slot `slot` with
/// `cfg`: the chassis stays well formed and keeps every live record,
/// the pool only shrinks, nothing outside the chassis and the roster
/// moves. A spawn appends the new rival (built from `cfg`, at neutral
/// hate, carried by its carpet record, its slot's team resolving to
/// it), and every earlier rival now hates slot `slot` at the respawn
/// level, nothing else of theirs changed. No spawn changes nothing, and
/// happens only without a marker or with a full pool.
pub open spec fn spawn_step(a: &World, b: &World, slot: u8, cfg: RivalConfig, spawned: bool) -> bool {
    &&& b.g.wf()
    &&& b.rivals_wf()
    &&& keeps_live_records(&a.g, &b.g)
    &&& b.g.free.len() <= a.g.free.len()
    &&& b.same_but_g_rivals(a)
    &&& spawned ==> {
        &&& a.g.free.len() > 0
        &&& b.rivals.len() == a.rivals.len() + 1
        &&& spawned_from(b.rivals@.last(), slot, cfg)
        &&& b.rivals@.last().hate@ == seq![HATE_NEUTRAL, HATE_NEUTRAL, HATE_NEUTRAL, HATE_NEUTRAL, HATE_NEUTRAL, HATE_NEUTRAL, HATE_NEUTRAL, HATE_NEUTRAL]
        &&& b.wizard_record_ok(b.g.ent[b.rivals@.last().ent as int], slot)
        &&& b.g.rival_ents@ == a.g.rival_ents@.update(slot as int, b.rivals@.last().ent)
        &&& forall|k: int| 0 <= k < a.rivals.len() ==> #[trigger] b.rivals[k] == (Rival { hate: b.rivals[k].hate, ..a.rivals[k] })
        &&& forall|k: int| 0 <= k < a.rivals.len() ==> (#[trigger] b.rivals[k]).hate@ == a.rivals[k].hate@.update(slot as int, HATE_RESPAWN)
        &&& b.entities_dirty
    }
    &&& !spawned ==> {
        &&& b.rivals == a.rivals
        &&& b.g.rival_ents == a.g.rival_ents
        &&& (a.marker_spec(slot).is_none() || a.g.free.len() == 0)
    }
}

/// The rivals before `ol` are the original ones up to their hate.
pub open spec fn old_frames(w: &World, o: &World, ol: int) -> bool {
    forall|k: int| 0 <= k < ol ==> #[trigger] w.rivals[k] == (Rival { hate: w.rivals[k].hate, ..o.rivals[k] })
}

/// Is slot `t` owed a rival: configured and with a start marker?
pub open spec fn owed(o: &World, configs: Seq<Option<RivalConfig>>, t: int) -> bool {
    configs[t] is Some && o.marker_spec(t as u8) is Some
}

/// A slot below `slot` that is owed a rival lacks one only once the
/// pool has run out: the pool is then empty and every later owed slot
/// lacks its rival too.
pub open spec fn roster_complete(w: &World, o: &World, configs: Seq<Option<RivalConfig>>, ol: int, slot: int) -> bool {
    forall|t: int|
        1 <= t < slot && #[trigger] owed(o, configs, t) && !slot_in(w, ol, t) ==> {
            &&& w.g.free.len() == 0
            &&& forall|t2: int| t < t2 < slot && #[trigger] owed(o, configs, t2) ==> !slot_in(w, ol, t2)
        }
}

/// The loop state of `set_wizards` after the slots below `slot`.
pub open spec fn roster_inv(w: &World, o: &World, configs: Seq<Option<RivalConfig>>, ol: int, slot: int) -> bool {
    &&& w.g.wf()
    &&& w.rivals_wf()
    &&& w.same_but_g_rivals(o)
    &&& ol == o.rivals.len()
    &&& new_roster_ok(w, configs, ol, slot)
    &&& old_frames(w, o, ol)
    &&& roster_complete(w, o, configs, ol, slot)
    &&& roster_extra(w, o, ol)
}

/// A slot with no config keeps the loop state.
pub proof fn lemma_roster_skip(w: &World, o: &World, configs: Seq<Option<RivalConfig>>, ol: int, slot: int)
    requires
        roster_inv(w, o, configs, ol, slot),
        0 <= slot < 8,
        configs.len() == 8,
        configs[slot] is None,
    ensures
        roster_inv(w, o, configs, ol, slot + 1),
{
}

/// A spawn step keeps the newcomer facts, now one slot further.
#[verifier::spinoff_prover]
pub proof fn lemma_step_roster(w0: &World, w1: &World, configs: Seq<Option<RivalConfig>>, ol: int, slot: int, cfg: RivalConfig, spawned: bool)
    requires
        new_roster_ok(w0, configs, ol, slot),
        w0.rivals_wf(),
        1 <= slot < 8,
        configs.len() == 8,
        configs[slot] == Some(cfg),
        spawn_step(w0, w1, slot as u8, cfg, spawned),
    ensures
        new_roster_ok(w1, configs, ol, slot + 1),
{
    let n0 = w0.rivals.len() as int;
    if spawned {
        assert(w1.rivals.len() == n0 + 1);
        assert(w1.rivals@.last() == w1.rivals[n0]);
        assert forall|b: int| ol <= b < w1.rivals.len() implies {
            let r = #[trigger] w1.rivals[b];
            &&& 1 <= r.slot < slot + 1
            &&& configs[r.slot as int] is Some
            &&& spawned_from(r, r.slot, configs[r.slot as int]->0)
        } by {
            if b < n0 {
                let r0 = w0.rivals[b];
                assert(w1.rivals[b] == (Rival { hate: w1.rivals[b].hate, ..r0 }));
                assert(w1.rivals[b].hate@ == r0.hate@.update(slot, HATE_RESPAWN));
                assert forall|p: int| 0 <= p < 8 implies #[trigger] w1.rivals[b].hate[p] == HATE_NEUTRAL || w1.rivals[b].hate[p] == HATE_RESPAWN by {
                    if p != slot {
                        assert(w1.rivals[b].hate[p] == r0.hate[p]);
                    }
                }
            }
        }
        assert forall|a: int, b: int| ol <= a < b < w1.rivals.len() implies (#[trigger] w1.rivals[a]).slot < (#[trigger] w1.rivals[b]).slot by {
            assert(w1.rivals[a].slot == w0.rivals[a].slot);
            if b < n0 {
                assert(w1.rivals[b].slot == w0.rivals[b].slot);
            }
        }
    }
}

/// A spawn step keeps the original rivals' frames.
#[verifier::spinoff_prover]
pub proof fn lemma_step_frames(w0: &World, w1: &World, o: &World, ol: int, slot: int, cfg: RivalConfig, spawned: bool)
    requires
        old_frames(w0, o, ol),
        0 <= ol <= w0.rivals.len(),
        0 <= slot < 8,
        spawn_step(w0, w1, slot as u8, cfg, spawned),
    ensures
        old_frames(w1, o, ol),
{
    if spawned {
        let n0 = w0.rivals.len() as int;
        assert forall|k: int| 0 <= k < ol implies #[trigger] w1.rivals[k] == (Rival { hate: w1.rivals[k].hate, ..o.rivals[k] }) by {
            assert(w1.rivals[k] == (Rival { hate: w1.rivals[k].hate, ..w0.rivals[k] }));
        }
    }
}

/// A spawn step keeps the completeness of the slots so far and adds
/// the current one.
#[verifier::spinoff_prover]
pub proof fn lemma_step_complete(w0: &World, w1: &World, o: &World, configs: Seq<Option<RivalConfig>>, ol: int, slot: int, cfg: RivalConfig, spawned: bool)
    requires
        roster_complete(w0, o, configs, ol, slot),
        new_roster_ok(w0, configs, ol, slot),
        0 <= ol <= w0.rivals.len(),
        w0.start_markers == o.start_markers,
        1 <= slot < 8,
        configs.len() == 8,
        configs[slot] == Some(cfg),
        spawn_step(w0, w1, slot as u8, cfg, spawned),
    ensures
        roster_complete(w1, o, configs, ol, slot + 1),
{
    let n0 = w0.rivals.len() as int;
    assert(w0.marker_spec(slot as u8) == o.marker_spec(slot as u8));
    if spawned {
        assert(w1.rivals@.last() == w1.rivals[n0]);
        assert(w1.rivals[n0].slot == slot);
        assert(slot_in(w1, ol, slot));
        assert forall|t: int| 1 <= t < slot + 1 && #[trigger] owed(o, configs, t) implies slot_in(w1, ol, t) by {
            if t < slot {
                if !slot_in(w0, ol, t) {
                    assert(w0.g.free.len() == 0);
                } else {
                    let b = choose|b: int| ol <= b < w0.rivals.len() && (#[trigger] w0.rivals[b]).slot as int == t;
                    assert(w1.rivals[b] == (Rival { hate: w1.rivals[b].hate, ..w0.rivals[b] }));
                }
            }
        }
    } else {
        assert forall|t: int| slot_in(w1, ol, t) == slot_in(w0, ol, t) by {
        }
        assert forall|t: int| 1 <= t < slot + 1 && #[trigger] owed(o, configs, t) && !slot_in(w1, ol, t) implies {
            &&& w1.g.free.len() == 0
            &&& forall|t2: int| t < t2 < slot + 1 && #[trigger] owed(o, configs, t2) ==> !slot_in(w1, ol, t2)
        } by {
            if t == slot {
                assert(w0.g.free.len() == 0);
            } else {
                assert(w0.g.free.len() == 0);
                if owed(o, configs, slot) {
                    assert(!slot_in(w1, ol, slot)) by {
                        if slot_in(w0, ol, slot) {
                            let b = choose|b: int| ol <= b < w0.rivals.len() && (#[trigger] w0.rivals[b]).slot as int == slot;
                            assert(w0.rivals[b].slot < slot);
                        }
                    }
                }
            }
        }
    }
}

/// Does some rival from roster index `lo` on sit at slot `p`?
pub open spec fn slot_in(w: &World, lo: int, p: int) -> bool {
    exists|b: int| lo <= b < w.rivals.len() && (#[trigger] w.rivals[b]).slot as int == p
}

/// The roster's hate and registration after the spawns from index
/// `ol` on: every rival from `ol` on holds a grudge (the respawn hate)
/// toward each later newcomer's slot and neutral hate elsewhere; the
/// rivals before `ol` hold the grudge toward every newcomer's slot and
/// keep their hate elsewhere; each newcomer's wizard is registered at
/// its slot.
pub open spec fn roster_extra(w: &World, o: &World, ol: int) -> bool {
    &&& forall|a: int, p: int| ol <= a < w.rivals.len() && 0 <= p < 8 ==> #[trigger] w.rivals[a].hate[p] == (if slot_in(w, a + 1, p) {
        HATE_RESPAWN
    } else {
        HATE_NEUTRAL
    })
    &&& forall|k: int, p: int| 0 <= k < ol && 0 <= p < 8 ==> #[trigger] w.rivals[k].hate[p] == (if slot_in(w, ol, p) {
        HATE_RESPAWN
    } else {
        o.rivals[k].hate[p]
    })
    &&& forall|b: int| ol <= b < w.rivals.len() ==> w.g.rival_ents[(#[trigger] w.rivals[b]).slot as int] == w.rivals[b].ent
}

/// A spawn step keeps the hate and registration facts.
#[verifier::spinoff_prover]
#[verifier::rlimit(40)]
pub proof fn lemma_step_extra(w0: &World, w1: &World, o: &World, configs: Seq<Option<RivalConfig>>, ol: int, slot: int, cfg: RivalConfig, spawned: bool)
    requires
        roster_extra(w0, o, ol),
        new_roster_ok(w0, configs, ol, slot),
        0 <= ol <= w0.rivals.len(),
        1 <= slot < 8,
        spawn_step(w0, w1, slot as u8, cfg, spawned),
    ensures
        roster_extra(w1, o, ol),
{
    let n0 = w0.rivals.len() as int;
    if spawned {
        assert(w1.rivals@.last() == w1.rivals[n0]);
        assert(w1.rivals[n0].slot == slot);
        assert forall|lo: int, p: int| 0 <= lo <= n0 && 0 <= p < 8 implies slot_in(w1, lo, p) == (slot_in(w0, lo, p) || p == slot) by {
            if slot_in(w0, lo, p) {
                let b = choose|b: int| lo <= b < w0.rivals.len() && (#[trigger] w0.rivals[b]).slot as int == p;
                assert(w1.rivals[b].slot == w0.rivals[b].slot);
            }
            if p == slot {
                assert(w1.rivals[n0].slot as int == p);
            }
            if slot_in(w1, lo, p) {
                let b = choose|b: int| lo <= b < w1.rivals.len() && (#[trigger] w1.rivals[b]).slot as int == p;
                if b < n0 {
                    assert(w1.rivals[b].slot == w0.rivals[b].slot);
                }
            }
        }
        assert forall|a: int, p: int| ol <= a < w1.rivals.len() && 0 <= p < 8 implies #[trigger] w1.rivals[a].hate[p] == (if slot_in(w1, a + 1, p) {
            HATE_RESPAWN
        } else {
            HATE_NEUTRAL
        }) by {
            if a < n0 {
                assert(w1.rivals[a].hate@ == w0.rivals[a].hate@.update(slot, HATE_RESPAWN));
                assert(w1.rivals[a].hate[p] == w1.rivals[a].hate@[p]);
                assert(w0.rivals[a].hate[p] == w0.rivals[a].hate@[p]);
            } else {
                assert(a == n0);
                assert(w1.rivals[n0].hate@[p] == HATE_NEUTRAL);
                assert(!slot_in(w1, a + 1, p));
            }
        }
        assert forall|k: int, p: int| 0 <= k < ol && 0 <= p < 8 implies #[trigger] w1.rivals[k].hate[p] == (if slot_in(w1, ol, p) {
            HATE_RESPAWN
        } else {
            o.rivals[k].hate[p]
        }) by {
            assert(w1.rivals[k].hate@ == w0.rivals[k].hate@.update(slot, HATE_RESPAWN));
            assert(w1.rivals[k].hate[p] == w1.rivals[k].hate@[p]);
            assert(w0.rivals[k].hate[p] == w0.rivals[k].hate@[p]);
        }
        assert forall|b: int| ol <= b < w1.rivals.len() implies w1.g.rival_ents[(#[trigger] w1.rivals[b]).slot as int] == w1.rivals[b].ent by {
            if b < n0 {
                assert(w1.rivals[b] == (Rival { hate: w1.rivals[b].hate, ..w0.rivals[b] }));
                assert(w0.rivals[b].slot < slot);
                assert(w1.g.rival_ents@[w0.rivals[b].slot as int] == w0.g.rival_ents@[w0.rivals[b].slot as int]);
            } else {
                assert(w1.g.rival_ents@[slot] == w1.rivals[n0].ent);
            }
        }
    } else {
        assert forall|lo: int, p: int| slot_in(w1, lo, p) == slot_in(w0, lo, p) by {
        }
    }
}

/// A spawn step at `slot` carries the loop state to the next slot.
pub proof fn lemma_roster_step(
    w0: &World,
    w1: &World,
    o: &World,
    configs: Seq<Option<RivalConfig>>,
    ol: int,
    slot: int,
    cfg: RivalConfig,
    spawned: bool,
)
    requires
        roster_inv(w0, o, configs, ol, slot),
        1 <= slot < 8,
        configs.len() == 8,
        configs[slot] == Some(cfg),
        spawn_step(w0, w1, slot as u8, cfg, spawned),
    ensures
        roster_inv(w1, o, configs, ol, slot + 1),
{
    lemma_step_roster(w0, w1, configs, ol, slot, cfg, spawned);
    lemma_step_frames(w0, w1, o, ol, slot, cfg, spawned);
    lemma_step_complete(w0, w1, o, configs, ol, slot, cfg, spawned);
    lemma_step_extra(w0, w1, o, configs, ol, slot, cfg, spawned);
}

/// The roster facts `set_wizards` leaves: the rivals from `ol` on are
/// the newly spawned ones, each from its slot's config, in ascending
/// slot order below `n`.
pub open spec fn new_roster_ok(w: &World, configs: Seq<Option<RivalConfig>>, ol: int, n: int) -> bool {
    &&& 0 <= ol <= w.rivals.len()
    &&& forall|b: int| ol <= b < w.rivals.len() ==> {
        let r = #[trigger] w.rivals[b];
        &&& 1 <= r.slot < n
        &&& configs[r.slot as int] is Some
        &&& spawned_from(r, r.slot, configs[r.slot as int]->0)
    }
    &&& forall|a: int, b: int| ol <= a < b < w.rivals.len() ==> (#[trigger] w.rivals[a]).slot < (#[trigger] w.rivals[b]).slot
}

impl World {
    /// Wire the level's wizards: one rival per configured AI slot in
    /// 1..min(player_count, 8), in slot order, each spawned at its start
    /// marker with its level-start book and starting castle (see
    /// [`Self::spawn_rival`]). Slot 0 (the human) is not a rival. A
    /// configured slot with a marker is left out only when the pool ran
    /// out of records.
    #[verifier::rlimit(40)]
    pub fn set_wizards(&mut self, configs: &[Option<RivalConfig>; 8], player_count: u16)
        requires
            old(self).g.wf(),
            old(self).rivals_wf(),
        ensures
            final(self).g.wf(),
            final(self).rivals_wf(),
            final(self).same_but_g_rivals(old(self)),
            new_roster_ok(final(self), configs@, old(self).rivals.len() as int, (if player_count < 8 { player_count as int } else { 8 })),
            forall|k: int| 0 <= k < old(self).rivals.len() ==> #[trigger] final(self).rivals[k] == (Rival {
                hate: final(self).rivals[k].hate,
                ..old(self).rivals[k]
            }),
            roster_extra(final(self), old(self), old(self).rivals.len() as int),
            roster_complete(final(self), old(self), configs@, old(self).rivals.len() as int, (if player_count < 8 {
                player_count as int
            } else {
                8
            })),
    {
        let n: u16 = if player_count < 8 { player_count } else { 8 };
        let ghost ol = self.rivals.len() as int;
        let mut slot: u16 = 1;
        while slot < n
            invariant
                1 <= slot,
                n <= 8,
                n == (if player_count < 8 { player_count } else { 8 }),
                slot <= n || slot == 1,
                roster_inv(self, old(self), configs@, ol, slot as int),
            decreases n - slot,
        {
            match &configs[slot as usize] {
                Some(cfg) => {
                    let ghost w0 = *self;
                    let spawned = self.spawn_rival(slot as u8, cfg);
                    proof {
                        lemma_roster_step(&w0, self, old(self), configs@, ol, slot as int, *cfg, spawned);
                    }
                },
                None => {
                    proof {
                        lemma_roster_skip(self, old(self), configs@, ol, slot as int);
                    }
                },
            }
            slot = slot + 1;
        }
    }
}

/// `b` is `a` with rival `ri` put in state `s` on `target` (the
/// target's signature stored; a real target also stamped on the
/// wizard entity's target lane), nothing else changed.
pub open spec fn stated(a: &World, b: &World, ri: int, s: AiState, target: u16) -> bool {
    &&& b.rivals@ == a.rivals@.update(ri, (Rival { state: s, target, target_sig: a.target_sig_spec(target), ..a.rivals[ri] }))
    &&& target != 0 ==> b.g.ent@ == a.g.ent@.update(
        a.rivals[ri].ent as int,
        (Ent { f146: target, ..a.g.ent[a.rivals[ri].ent as int] }),
    )
    &&& target == 0 ==> b.g.ent == a.g.ent
    &&& b.g == (Gen { ent: b.g.ent, ..a.g })
    &&& *b == (World { rivals: b.rivals, g: b.g, ..*a })
}

/// One candidate of the enemy-wizard election: its target tag, its
/// position, whether it is cloaked, its mana ceiling and mana, whether
/// it is a weak castle builder (castle spell, castle not established),
/// and the picker's hate and war toward its slot.
#[derive(Clone, Copy)]
pub struct WizCand {
    pub target: u16,
    pub x: u16,
    pub y: u16,
    pub invisible: bool,
    pub ceiling: u32,
    pub mana: u32,
    pub weak: bool,
    pub hate: u16,
    pub war: bool,
}

/// Does the picker (aggression `agg`, mana `my_mana`) want to attack
/// `c` outside war: hated past the candidate's wealth-scaled threshold
/// (`50000 − agg·(ceiling/10)/255 ≤ hate`), or a weak builder poorer by
/// more than `32·(255 − agg)`?
pub open spec fn wants_spec(c: WizCand, agg: int, my_mana: int) -> bool {
    ||| 50000 - agg * (c.ceiling / 10) / 255 <= c.hate
    ||| c.weak && c.mana + 32 * (255 - agg) < my_mana
}

impl World {
    /// The election candidate at position `k` of the pick order for
    /// rival `ri`: position 0 is the human (when his carpet was on the
    /// tick-top chain), position c + 1 the chain's c-th record when it
    /// is another rival's live carpet.
    #[verifier::opaque]
    pub open spec fn wiz_cand_spec(&self, ri: int, k: int) -> Option<WizCand> {
        let me = self.rivals[ri];
        if k == 0 {
            if self.human_bucket_alive {
                Some(WizCand {
                    target: PLAYER_TARGET,
                    x: self.human_pose.0,
                    y: self.human_pose.1,
                    invisible: self.player.invisible,
                    ceiling: self.player.mana_max,
                    mana: self.player.mana,
                    weak: !self.castle_bound_spec(self.castle_of_spec(PLAYER_TARGET)) && self.player.owned[16] != 0,
                    hate: me.hate[0],
                    war: me.war[0],
                })
            } else {
                None
            }
        } else if 1 <= k <= self.wiz_chain.len() {
            let j = self.wiz_chain[k - 1];
            let e = self.g.ent[j as int];
            if e.model65 != 1 || e.id24 == me.ent {
                None
            } else {
                match rival_by_ent(self.rivals@, j) {
                    Some(oj) => {
                        let o = self.rivals[oj];
                        if o.eliminated {
                            None
                        } else {
                            Some(WizCand {
                                target: o.ent,
                                x: e.x,
                                y: e.y,
                                invisible: o.invisible,
                                ceiling: o.mana_max,
                                mana: o.mana,
                                weak: !self.castle_bound_spec(self.castle_of_spec(o.ent)) && o.known[16],
                                hate: me.hate[o.slot as int],
                                war: me.war[o.slot as int],
                            })
                        }
                    },
                    None => None,
                }
            }
        } else {
            None
        }
    }

    /// Is candidate `k` a war pick (visible, at war)?
    pub open spec fn war_cand(&self, ri: int, k: int) -> bool {
        match self.wiz_cand_spec(ri, k) {
            Some(c) => !c.invisible && c.war,
            None => false,
        }
    }

    /// Is candidate `k` in the distance election (visible, not at war,
    /// wanted)?
    pub open spec fn elect_cand(&self, ri: int, k: int) -> bool {
        match self.wiz_cand_spec(ri, k) {
            Some(c) => !c.invisible && !c.war && wants_spec(c, self.rivals[ri].agg as int, self.rivals[ri].mana as int),
            None => false,
        }
    }

    /// Candidate `k`'s squared distance from the picker's carpet.
    pub open spec fn cand_dist(&self, ri: int, k: int) -> int {
        let me = self.g.ent[self.rivals[ri].ent as int];
        let c = self.wiz_cand_spec(ri, k)->0;
        dist2_spec(me.x, me.y, c.x, c.y)
    }

    /// Is candidate `k` the election winner: the nearest, the earliest
    /// among equals?
    pub open spec fn is_best_cand(&self, ri: int, k: int) -> bool {
        &&& 0 <= k <= self.wiz_chain.len()
        &&& self.elect_cand(ri, k)
        &&& forall|q: int| 0 <= q <= self.wiz_chain.len() && self.elect_cand(ri, q) ==> self.cand_dist(ri, k) <= #[trigger] self.cand_dist(ri, q)
        &&& forall|q: int| 0 <= q < k && self.elect_cand(ri, q) ==> self.cand_dist(ri, k) < #[trigger] self.cand_dist(ri, q)
    }

    /// The world's facts the enemy-wizard pick leans on.
    pub open spec fn pick_ok(&self, ri: int) -> bool {
        &&& 0 <= ri < self.rivals.len()
        &&& self.rivals_wf()
        &&& forall|c: int| 0 <= c < self.wiz_chain.len() ==> (#[trigger] self.wiz_chain[c] as int) < self.g.ent.len()
        &&& (self.g.ent[self.rivals[ri].ent as int].row156 as int) < self.mc1_behavior.len()
    }

    /// The engagement range² of rival `ri`'s carpet row: `(v_28 + 10)²`.
    pub open spec fn wiz_range2(&self, ri: int) -> int {
        let v = self.mc1_behavior[self.g.ent[self.rivals[ri].ent as int].row156 as int].v_28 as int + 10;
        v * v
    }

    /// The candidate at position `k` (see [`Self::wiz_cand_spec`]).
    pub fn wiz_cand(&self, ri: usize, k: usize) -> (c: Option<WizCand>)
        requires
            self.pick_ok(ri as int),
            k <= self.wiz_chain.len(),
        ensures
            c == self.wiz_cand_spec(ri as int, k as int),
            c matches Some(cc) ==> self.target_ok(cc.target),
    {
        reveal(World::wiz_cand_spec);
        let me = &self.rivals[ri];
        if k == 0 {
            if self.human_bucket_alive {
                let pc = self.player_castle();
                return Some(WizCand {
                    target: PLAYER_TARGET,
                    x: self.human_pose.0,
                    y: self.human_pose.1,
                    invisible: self.player.invisible,
                    ceiling: self.player.mana_max,
                    mana: self.player.mana,
                    weak: !self.castle_bound(pc) && self.player.owned[16] != 0,
                    hate: me.hate[0],
                    war: me.war[0],
                });
            }
            return None;
        }
        let j = self.wiz_chain[k - 1];
        let e = &self.g.ent[j as usize];
        if e.model65 != 1 || e.id24 == me.ent {
            return None;
        }
        match self.find_rival_by_ent(j) {
            Some(oj) => {
                let o = &self.rivals[oj];
                if o.eliminated {
                    None
                } else {
                    let oc = self.rival_castle(o.ent);
                    Some(WizCand {
                        target: o.ent,
                        x: e.x,
                        y: e.y,
                        invisible: o.invisible,
                        ceiling: o.mana_max,
                        mana: o.mana,
                        weak: !self.castle_bound(oc) && o.known[16],
                        hate: me.hate[o.slot as usize],
                        war: me.war[o.slot as usize],
                    })
                }
            },
            None => None,
        }
    }

    /// Does rival `ri` want to attack `c` outside war (see [`wants_spec`])?
    pub fn wants(&self, ri: usize, c: WizCand) -> (b: bool)
        requires
            ri < self.rivals.len(),
            self.rivals[ri as int].agg <= 255,
        ensures
            b == wants_spec(c, self.rivals[ri as int].agg as int, self.rivals[ri as int].mana as int),
    {
        let agg = self.rivals[ri].agg as i64;
        let my_mana = self.rivals[ri].mana as i64;
        let ceil10 = (c.ceiling / 10) as i64;
        assert(0 <= agg * ceil10 <= 255 * 0x2000_0000) by (nonlinear_arith)
            requires
                0 <= agg <= 255,
                0 <= ceil10 <= 0x2000_0000;
        let hated = 50_000 - agg * ceil10 / 255 <= c.hate as i64;
        let bully = c.weak && (c.mana as i64) + 32 * (255 - agg) < my_mana;
        hated || bully
    }

    /// Enemy-wizard pick: a castle-capable rival whose own castle is not
    /// established does not hunt wizards. Otherwise the candidates are
    /// judged in pick order (the human first, then the tick-top chain):
    /// the first visible candidate at war is the target outright, with
    /// no range test; failing that, the nearest wanted candidate (the
    /// earliest among equals) is the target when it lies strictly inside
    /// the engagement range. A pick enters `AttackWizard`; no pick
    /// changes nothing.
    #[verifier::spinoff_prover]
    #[verifier::rlimit(60)]
    pub fn rival_pick_wizard_target(&mut self, ri: usize) -> (picked: bool)
        requires
            old(self).pick_ok(ri as int),
        ensures
            ({
                let o = old(self);
                let r = o.rivals[ri as int];
                if r.known[16] && !o.castle_bound_spec(o.castle_of_spec(r.ent)) {
                    !picked && *final(self) == *old(self)
                } else if exists|k: int| 0 <= k <= o.wiz_chain.len() && o.war_cand(ri as int, k) {
                    exists|k: int| 0 <= k <= o.wiz_chain.len() && o.war_cand(ri as int, k)
                        && (forall|q: int| 0 <= q < k ==> !#[trigger] o.war_cand(ri as int, q))
                        && picked
                        && stated(o, final(self), ri as int, AiState::AttackWizard, o.wiz_cand_spec(ri as int, k)->0.target)
                } else if exists|k: int| 0 <= k <= o.wiz_chain.len() && o.elect_cand(ri as int, k) {
                    exists|k: int| o.is_best_cand(ri as int, k) && (if o.cand_dist(ri as int, k) < o.wiz_range2(ri as int) {
                        picked && stated(o, final(self), ri as int, AiState::AttackWizard, o.wiz_cand_spec(ri as int, k)->0.target)
                    } else {
                        !picked && *final(self) == *old(self)
                    })
                } else {
                    !picked && *final(self) == *old(self)
                }
            }),
    {
        let me = self.rivals[ri].ent;
        let mc = self.rival_castle(me);
        if self.rivals[ri].known[16] && !self.castle_bound(mc) {
            return false;
        }
        let px = self.g.ent[me as usize].x;
        let py = self.g.ent[me as usize].y;
        let n = self.wiz_chain.len();
        let mut best: Option<(u16, i64)> = None;
        let ghost mut bk: int = 0;
        let ghost mut done: int = 0;
        let mut k: usize = 0;
        loop
            invariant_except_break
                done == k as int,
                k <= n,
            invariant
                n == self.wiz_chain.len(),
                0 <= done <= n + 1,
                *self == *old(self),
                !(self.rivals[ri as int].known[16] && !self.castle_bound_spec(self.castle_of_spec(me))),
                self.pick_ok(ri as int),
                me == self.rivals[ri as int].ent,
                px == self.g.ent[me as int].x,
                py == self.g.ent[me as int].y,
                forall|q: int| 0 <= q < done ==> !#[trigger] self.war_cand(ri as int, q),
                match best {
                    None => forall|q: int| 0 <= q < done ==> !#[trigger] self.elect_cand(ri as int, q),
                    Some((t, d)) => {
                        &&& 0 <= bk < done
                        &&& self.elect_cand(ri as int, bk)
                        &&& self.target_ok(t)
                        &&& t == self.wiz_cand_spec(ri as int, bk)->0.target
                        &&& d == self.cand_dist(ri as int, bk)
                        &&& forall|q: int| 0 <= q < done && self.elect_cand(ri as int, q) ==> d <= #[trigger] self.cand_dist(ri as int, q)
                        &&& forall|q: int| 0 <= q < bk && self.elect_cand(ri as int, q) ==> d < #[trigger] self.cand_dist(ri as int, q)
                    },
                },
            ensures
                done == n + 1,
            decreases n + 1 - done,
        {
            match self.wiz_cand(ri, k) {
                Some(c) => {
                    if !c.invisible {
                        if c.war {
                            proof {
                                assert(self.war_cand(ri as int, k as int));
                            }
                            self.set_rival_state(ri, AiState::AttackWizard, c.target);
                            return true;
                        }
                        if self.wants(ri, c) {
                            let d = Gen::dist2_sq(px, py, c.x, c.y);
                            proof {
                                assert(self.elect_cand(ri as int, k as int));
                                assert(d == self.cand_dist(ri as int, k as int));
                            }
                            let better = match best {
                                None => true,
                                Some((_, bd)) => d < bd,
                            };
                            if better {
                                best = Some((c.target, d));
                                proof {
                                    bk = k as int;
                                }
                            }
                        } else {
                            proof {
                                assert(!self.elect_cand(ri as int, k as int));
                            }
                        }
                    } else {
                        proof {
                            assert(!self.elect_cand(ri as int, k as int));
                            assert(!self.war_cand(ri as int, k as int));
                        }
                    }
                },
                None => {
                    proof {
                        assert(!self.elect_cand(ri as int, k as int));
                        assert(!self.war_cand(ri as int, k as int));
                    }
                },
            }
            proof {
                done = done + 1;
            }
            if k == n {
                break;
            }
            k = k + 1;
        }
        proof {
            assert(!(exists|q: int| 0 <= q <= n && self.war_cand(ri as int, q)));
        }
        let (t, d) = match best {
            Some(b) => b,
            None => {
                proof {
                    assert(!(exists|q: int| 0 <= q <= n && self.elect_cand(ri as int, q)));
                }
                return false;
            },
        };
        proof {
            assert(self.is_best_cand(ri as int, bk));
        }
        let row = self.g.ent[me as usize].row156 as usize;
        let range: i64 = self.mc1_behavior[row].v_28 as i64 + 10;
        assert(0 <= range * range <= 0x1_0000_0000) by (nonlinear_arith)
            requires
                -0x8000 + 10 <= range <= 0x7FFF + 10;
        if d >= range * range {
            return false;
        }
        self.set_rival_state(ri, AiState::AttackWizard, t);
        true
    }

}


impl World {
    /// The facts the raid and hunt picks of rival `ri` from carpet `i`
    /// lean on: the wizard pick's, every wizard on a pool record, MC2
    /// slots in range, and no wealth whose hate-gate cut overflows.
    pub open spec fn raid_ok(&self, ri: int, i: int) -> bool {
        &&& self.raid_world_ok(ri)
        &&& 0 <= i < self.g.ent.len()
        &&& (self.g.ent[i].row156 as int) < self.mc1_behavior.len()
    }

    /// The world facts of [`Self::raid_ok`] without the carpet.
    pub open spec fn raid_world_ok(&self, ri: int) -> bool {
        &&& self.pick_ok(ri)
        &&& self.wizard_ents_ok()
        &&& self.slots_ok()
        &&& forall|s: u8| s < 8 ==> (#[trigger] self.wealth_spec(s) / 10) * self.rivals[ri].agg <= u32::MAX
    }

    /// The mana rival `ri` has stored in its castle (none without one).
    pub open spec fn my_stored(&self, ri: int) -> int {
        match self.castle_of_spec(self.rivals[ri].ent) {
            Some(c) => if self.g.ent[c as int].f140 > 0 { self.g.ent[c as int].f140 as int } else { 0 },
            None => 0,
        }
    }

    /// Is the chain's `c`-th record a castle-raid candidate for rival
    /// `ri`: another's castle (model 2) whose owner resolves to a slot,
    /// with that owner hated (see [`Self::hate_over_spec`]) and away
    /// from it (no live position, or more than 7680 off), or the castle
    /// poorer than ours by the aggression margin (its stored mana plus
    /// `640·(255 − agg)`, saturating, under ours)?
    pub open spec fn castle_cand(&self, ri: int, c: int) -> bool {
        let r = self.rivals[ri];
        let e = self.g.ent[self.wiz_chain[c] as int];
        &&& e.model65 == 2
        &&& e.id24 != r.ent
        &&& match self.owner_slot_w_spec(e.id24) {
            Some(owner) => {
                let hated = self.hate_over_spec(ri, owner, self.wealth_spec(owner));
                let undefended = match self.wizard_pos_spec(owner) {
                    Some(p) => dist2_spec(e.x, e.y, p.0, p.1) > 7680 * 7680,
                    None => true,
                };
                let stored = if e.f140 > 0 { e.f140 as int } else { 0 };
                let margin = stored + 640 * (255 - r.agg);
                let poorer = (if margin > u32::MAX { u32::MAX as int } else { margin }) < self.my_stored(ri);
                (hated && undefended) || poorer
            },
            None => false,
        }
    }

    /// The squared distance from carpet `i` to the chain's `c`-th record.
    pub open spec fn chain_dist(&self, i: int, c: int) -> int {
        let p = self.g.ent[i];
        let e = self.g.ent[self.wiz_chain[c] as int];
        dist2_spec(p.x, p.y, e.x, e.y)
    }

    /// Is chain position `c` the castle-raid winner: a candidate, the
    /// nearest, the earliest among equals?
    pub open spec fn is_best_castle(&self, ri: int, i: int, c: int) -> bool {
        &&& 0 <= c < self.wiz_chain.len()
        &&& self.castle_cand(ri, c)
        &&& forall|q: int| 0 <= q < self.wiz_chain.len() && self.castle_cand(ri, q) ==> self.chain_dist(i, c) <= #[trigger] self.chain_dist(i, q)
        &&& forall|q: int| 0 <= q < c && self.castle_cand(ri, q) ==> self.chain_dist(i, c) < #[trigger] self.chain_dist(i, q)
    }

    /// The range² of carpet `i`'s behavior row: `v_28²`.
    pub open spec fn raid_range2(&self, i: int) -> int {
        let v = self.mc1_behavior[self.g.ent[i].row156 as int].v_28 as int;
        v * v
    }

    /// Is the chain's `c`-th record a castle-raid candidate (see
    /// [`Self::castle_cand`])?
    pub fn castle_cand_at(&self, ri: usize, c: usize) -> (b: bool)
        requires
            self.raid_world_ok(ri as int),
            c < self.wiz_chain.len(),
        ensures
            b == self.castle_cand(ri as int, c as int),
    {
        let r = &self.rivals[ri];
        let j = self.wiz_chain[c] as usize;
        let e = self.g.ent[j];
        if e.model65 != 2 || e.id24 == r.ent {
            return false;
        }
        let owner = match self.rival_owner_slot(e.id24) {
            Some(s) => s,
            None => return false,
        };
        let wealth = self.wizard_wealth(owner);
        let hated = self.hate_over(ri, owner, wealth);
        let undefended = match self.wizard_pos(owner) {
            Some((wx, wy, _)) => Gen::dist2_sq(e.x, e.y, wx, wy) > 7680 * 7680,
            None => true,
        };
        let my_stored: u32 = match self.rival_castle(r.ent) {
            Some(mc) => if self.g.ent[mc].f140 > 0 { self.g.ent[mc].f140 as u32 } else { 0 },
            None => 0,
        };
        let stored: u32 = if e.f140 > 0 { e.f140 as u32 } else { 0 };
        let poorer = stored.saturating_add(640 * (255 - r.agg as u32)) < my_stored;
        (hated && undefended) || poorer
    }

    /// Enemy-castle pick of rival `ri` from carpet `i`: a castle-capable
    /// rival without a castle does not raid. Otherwise the candidates of
    /// the tick-top chain (see [`Self::castle_cand`]) are elected by
    /// distance from the carpet, the nearest (the earliest among
    /// equals) winning; the winner alone faces the range gate (strictly
    /// inside `v_28`) and enters `RaidCastle`. No pick changes nothing.
    #[verifier::spinoff_prover]
    #[verifier::rlimit(60)]
    pub fn rival_pick_castle_target(&mut self, ri: usize, i: usize) -> (picked: bool)
        requires
            old(self).raid_ok(ri as int, i as int),
        ensures
            ({
                let o = old(self);
                let r = o.rivals[ri as int];
                if r.known[16] && o.castle_of_spec(r.ent) is None {
                    !picked && *final(self) == *old(self)
                } else if exists|c: int| 0 <= c < o.wiz_chain.len() && o.castle_cand(ri as int, c) {
                    exists|c: int| o.is_best_castle(ri as int, i as int, c) && (if o.chain_dist(i as int, c) < o.raid_range2(i as int) {
                        picked && stated(o, final(self), ri as int, AiState::RaidCastle, o.wiz_chain[c])
                    } else {
                        !picked && *final(self) == *old(self)
                    })
                } else {
                    !picked && *final(self) == *old(self)
                }
            }),
    {
        let me = self.rivals[ri].ent;
        if self.rival_castle(me).is_none() && self.rivals[ri].known[16] {
            return false;
        }
        let px = self.g.ent[i].x;
        let py = self.g.ent[i].y;
        let n = self.wiz_chain.len();
        let mut best: Option<(u16, i64)> = None;
        let ghost mut bk: int = 0;
        let mut c: usize = 0;
        while c < n
            invariant
                n == self.wiz_chain.len(),
                c <= n,
                *self == *old(self),
                self.raid_ok(ri as int, i as int),
                px == self.g.ent[i as int].x,
                py == self.g.ent[i as int].y,
                match best {
                    None => forall|q: int| 0 <= q < c ==> !#[trigger] self.castle_cand(ri as int, q),
                    Some((t, d)) => {
                        &&& 0 <= bk < c
                        &&& self.castle_cand(ri as int, bk)
                        &&& t == self.wiz_chain[bk]
                        &&& d == self.chain_dist(i as int, bk)
                        &&& forall|q: int| 0 <= q < c && self.castle_cand(ri as int, q) ==> d <= #[trigger] self.chain_dist(i as int, q)
                        &&& forall|q: int| 0 <= q < bk && self.castle_cand(ri as int, q) ==> d < #[trigger] self.chain_dist(i as int, q)
                    },
                },
            decreases n - c,
        {
            if self.castle_cand_at(ri, c) {
                let j = self.wiz_chain[c];
                let d = Gen::dist2_sq(px, py, self.g.ent[j as usize].x, self.g.ent[j as usize].y);
                let better = match best {
                    None => true,
                    Some((_, bd)) => d < bd,
                };
                if better {
                    best = Some((j, d));
                    proof {
                        bk = c as int;
                    }
                }
            }
            c = c + 1;
        }
        let (t, d) = match best {
            Some(b) => b,
            None => {
                return false;
            },
        };
        proof {
            assert(self.is_best_castle(ri as int, i as int, bk));
        }
        let range: i64 = self.mc1_behavior[self.g.ent[i].row156 as usize].v_28 as i64;
        assert(0 <= range * range <= 0x4000_0000) by (nonlinear_arith)
            requires
                -0x8000 <= range <= 0x7FFF;
        if d >= range * range {
            return false;
        }
        self.set_rival_state(ri, AiState::RaidCastle, t);
        true
    }
}


impl World {
    /// Is the chain's `c`-th record a balloon-raid candidate for rival
    /// `ri`: another's balloon (model 3) whose owner resolves to a slot
    /// the rival hates (see [`Self::hate_over_spec`]), carrying more than
    /// `10·(275 − agg)` mana, and not over its owner's registered castle?
    pub open spec fn balloon_cand(&self, ri: int, c: int) -> bool {
        let r = self.rivals[ri];
        let j = self.wiz_chain[c] as int;
        let e = self.g.ent[j];
        &&& e.model65 == 3
        &&& e.id24 != r.ent
        &&& match self.owner_slot_w_spec(e.id24) {
            Some(owner) => {
                &&& self.hate_over_spec(ri, owner, self.wealth_spec(owner))
                &&& (if e.f140 > 0 { e.f140 as int } else { 0 }) > 10 * (275 - r.agg)
                &&& !self.g.overlap_spec(j, self.castle_reg[owner as int % 8] as int)
            },
            None => false,
        }
    }

    /// Is chain position `c` the balloon-raid winner: a candidate, the
    /// nearest to carpet `i`, the earliest among equals?
    pub open spec fn is_best_balloon(&self, ri: int, i: int, c: int) -> bool {
        &&& 0 <= c < self.wiz_chain.len()
        &&& self.balloon_cand(ri, c)
        &&& forall|q: int| 0 <= q < self.wiz_chain.len() && self.balloon_cand(ri, q) ==> self.chain_dist(i, c) <= #[trigger] self.chain_dist(i, q)
        &&& forall|q: int| 0 <= q < c && self.balloon_cand(ri, q) ==> self.chain_dist(i, c) < #[trigger] self.chain_dist(i, q)
    }

    /// Every castle register names a pool record.
    pub open spec fn regs_ok(&self) -> bool {
        forall|s: int| 0 <= s < 8 ==> (#[trigger] self.castle_reg[s] as int) < self.g.ent.len()
    }

    /// Is the chain's `c`-th record a balloon-raid candidate (see
    /// [`Self::balloon_cand`])?
    pub fn balloon_cand_at(&self, ri: usize, c: usize) -> (b: bool)
        requires
            self.raid_world_ok(ri as int),
            self.regs_ok(),
            c < self.wiz_chain.len(),
        ensures
            b == self.balloon_cand(ri as int, c as int),
    {
        let r = &self.rivals[ri];
        let j = self.wiz_chain[c] as usize;
        let e = self.g.ent[j];
        if e.model65 != 3 || e.id24 == r.ent {
            return false;
        }
        let owner = match self.rival_owner_slot(e.id24) {
            Some(s) => s,
            None => return false,
        };
        let wealth = self.wizard_wealth(owner);
        if !self.hate_over(ri, owner, wealth) {
            return false;
        }
        let cargo: u32 = if e.f140 > 0 { e.f140 as u32 } else { 0 };
        if cargo <= 10 * (275 - r.agg as u32) {
            return false;
        }
        let home = self.castle_reg[(owner % 8) as usize] as usize;
        !self.g.ent_overlap(j, home)
    }

    /// Enemy-balloon pick of rival `ri` from carpet `i`: the candidates
    /// of the tick-top chain (see [`Self::balloon_cand`]) are elected by
    /// distance from the carpet, the nearest (the earliest among equals)
    /// winning; the winner alone faces the range gate (strictly inside
    /// `v_28`) and enters `RaidBalloon`. No pick changes nothing.
    #[verifier::spinoff_prover]
    #[verifier::rlimit(60)]
    pub fn rival_pick_balloon_target(&mut self, ri: usize, i: usize) -> (picked: bool)
        requires
            old(self).raid_ok(ri as int, i as int),
            old(self).regs_ok(),
        ensures
            ({
                let o = old(self);
                if exists|c: int| 0 <= c < o.wiz_chain.len() && o.balloon_cand(ri as int, c) {
                    exists|c: int| o.is_best_balloon(ri as int, i as int, c) && (if o.chain_dist(i as int, c) < o.raid_range2(i as int) {
                        picked && stated(o, final(self), ri as int, AiState::RaidBalloon, o.wiz_chain[c])
                    } else {
                        !picked && *final(self) == *old(self)
                    })
                } else {
                    !picked && *final(self) == *old(self)
                }
            }),
    {
        let px = self.g.ent[i].x;
        let py = self.g.ent[i].y;
        let n = self.wiz_chain.len();
        let mut best: Option<(u16, i64)> = None;
        let ghost mut bk: int = 0;
        let mut c: usize = 0;
        while c < n
            invariant
                n == self.wiz_chain.len(),
                c <= n,
                *self == *old(self),
                self.raid_ok(ri as int, i as int),
                self.regs_ok(),
                px == self.g.ent[i as int].x,
                py == self.g.ent[i as int].y,
                match best {
                    None => forall|q: int| 0 <= q < c ==> !#[trigger] self.balloon_cand(ri as int, q),
                    Some((t, d)) => {
                        &&& 0 <= bk < c
                        &&& self.balloon_cand(ri as int, bk)
                        &&& t == self.wiz_chain[bk]
                        &&& d == self.chain_dist(i as int, bk)
                        &&& forall|q: int| 0 <= q < c && self.balloon_cand(ri as int, q) ==> d <= #[trigger] self.chain_dist(i as int, q)
                        &&& forall|q: int| 0 <= q < bk && self.balloon_cand(ri as int, q) ==> d < #[trigger] self.chain_dist(i as int, q)
                    },
                },
            decreases n - c,
        {
            if self.balloon_cand_at(ri, c) {
                let j = self.wiz_chain[c];
                let d = Gen::dist2_sq(px, py, self.g.ent[j as usize].x, self.g.ent[j as usize].y);
                let better = match best {
                    None => true,
                    Some((_, bd)) => d < bd,
                };
                if better {
                    best = Some((j, d));
                    proof {
                        bk = c as int;
                    }
                }
            }
            c = c + 1;
        }
        let (t, d) = match best {
            Some(b) => b,
            None => {
                return false;
            },
        };
        proof {
            assert(self.is_best_balloon(ri as int, i as int, bk));
        }
        let range: i64 = self.mc1_behavior[self.g.ent[i].row156 as usize].v_28 as i64;
        assert(0 <= range * range <= 0x4000_0000) by (nonlinear_arith)
            requires
                -0x8000 <= range <= 0x7FFF;
        if d >= range * range {
            return false;
        }
        self.set_rival_state(ri, AiState::RaidBalloon, t);
        true
    }

    /// The point rival `ri`'s mana hunt measures from: its castle, or
    /// carpet `i` when it has none.
    pub open spec fn hunt_anchor(&self, ri: int, i: int) -> (u16, u16) {
        match self.castle_of_spec(self.rivals[ri].ent) {
            Some(c) => (self.g.ent[c as int].x, self.g.ent[c as int].y),
            None => (self.g.ent[i].x, self.g.ent[i].y),
        }
    }

    /// Is the creature chain's `m`-th record a mana-hunt candidate for
    /// rival `ri`: not its own, carrying mana?
    pub open spec fn mana_cand(&self, ri: int, m: int) -> bool {
        let e = self.g.ent[self.mob_chain[m] as int];
        e.id24 != self.rivals[ri].ent && e.f140 > 0
    }

    /// The squared distance from the hunt anchor to the creature
    /// chain's `m`-th record.
    pub open spec fn mob_dist(&self, ri: int, i: int, m: int) -> int {
        let a = self.hunt_anchor(ri, i);
        let e = self.g.ent[self.mob_chain[m] as int];
        dist2_spec(a.0, a.1, e.x, e.y)
    }

    /// Is creature chain position `m` the mana-hunt winner: a
    /// candidate, the nearest to the anchor, the earliest among equals?
    pub open spec fn is_best_mana(&self, ri: int, i: int, m: int) -> bool {
        &&& 0 <= m < self.mob_chain.len()
        &&& self.mana_cand(ri, m)
        &&& forall|q: int| 0 <= q < self.mob_chain.len() && self.mana_cand(ri, q) ==> self.mob_dist(ri, i, m) <= #[trigger] self.mob_dist(ri, i, q)
        &&& forall|q: int| 0 <= q < m && self.mana_cand(ri, q) ==> self.mob_dist(ri, i, m) < #[trigger] self.mob_dist(ri, i, q)
    }

    /// Mana-holder hunt of rival `ri` from carpet `i`: a rival without
    /// an attack spell (see [`Self::has_offense_spec`]) does not hunt.
    /// Otherwise the nearest other-team creature of the tick-top
    /// creature chains carrying mana, measured from the rival's castle
    /// (from the carpet when it has none), the earliest among equals,
    /// enters `HuntMana`, with no range cap. No pick changes nothing.
    #[verifier::spinoff_prover]
    #[verifier::rlimit(60)]
    pub fn rival_pick_mana_target(&mut self, ri: usize, i: usize) -> (picked: bool)
        requires
            old(self).pick_ok(ri as int),
            i < old(self).g.ent.len(),
            forall|m: int| 0 <= m < old(self).mob_chain.len() ==> (#[trigger] old(self).mob_chain[m] as int) < old(self).g.ent.len(),
        ensures
            ({
                let o = old(self);
                if !o.has_offense_spec(ri as int) {
                    !picked && *final(self) == *old(self)
                } else if exists|m: int| 0 <= m < o.mob_chain.len() && o.mana_cand(ri as int, m) {
                    exists|m: int| o.is_best_mana(ri as int, i as int, m)
                        && picked && stated(o, final(self), ri as int, AiState::HuntMana, o.mob_chain[m])
                } else {
                    !picked && *final(self) == *old(self)
                }
            }),
    {
        if !self.rival_has_offense(ri) {
            return false;
        }
        let me = self.rivals[ri].ent;
        let (ax, ay) = match self.rival_castle(me) {
            Some(c) => (self.g.ent[c].x, self.g.ent[c].y),
            None => (self.g.ent[i].x, self.g.ent[i].y),
        };
        let n = self.mob_chain.len();
        let mut best: Option<(u16, i64)> = None;
        let ghost mut bk: int = 0;
        let mut m: usize = 0;
        while m < n
            invariant
                n == self.mob_chain.len(),
                m <= n,
                *self == *old(self),
                self.pick_ok(ri as int),
                i < self.g.ent.len(),
                forall|q: int| 0 <= q < self.mob_chain.len() ==> (#[trigger] self.mob_chain[q] as int) < self.g.ent.len(),
                me == self.rivals[ri as int].ent,
                (ax, ay) == self.hunt_anchor(ri as int, i as int),
                match best {
                    None => forall|q: int| 0 <= q < m ==> !#[trigger] self.mana_cand(ri as int, q),
                    Some((t, d)) => {
                        &&& 0 <= bk < m
                        &&& self.mana_cand(ri as int, bk)
                        &&& t == self.mob_chain[bk]
                        &&& d == self.mob_dist(ri as int, i as int, bk)
                        &&& forall|q: int| 0 <= q < m && self.mana_cand(ri as int, q) ==> d <= #[trigger] self.mob_dist(ri as int, i as int, q)
                        &&& forall|q: int| 0 <= q < bk && self.mana_cand(ri as int, q) ==> d < #[trigger] self.mob_dist(ri as int, i as int, q)
                    },
                },
            decreases n - m,
        {
            let j = self.mob_chain[m];
            let e = self.g.ent[j as usize];
            if e.id24 != me && e.f140 > 0 {
                let d = Gen::dist2_sq(ax, ay, e.x, e.y);
                let better = match best {
                    None => true,
                    Some((_, bd)) => d < bd,
                };
                if better {
                    best = Some((j, d));
                    proof {
                        bk = m as int;
                    }
                }
            }
            m = m + 1;
        }
        match best {
            Some((t, _)) => {
                proof {
                    assert(self.is_best_mana(ri as int, i as int, bk));
                }
                self.set_rival_state(ri, AiState::HuntMana, t);
                true
            },
            None => false,
        }
    }
}


/// A purse after a credit: `mana + amount`, capped at `max`.
pub open spec fn credited(mana: u32, max: u32, amount: u32) -> u32 {
    if mana + amount < max { (mana + amount) as u32 } else { max }
}

impl World {
    /// The slot of the wizard a mailbox source resolves to: the human's
    /// sentinel is slot 0; a pool record that is a wizard carpet (class
    /// 3, model 0 or 1) is its own owner, any other record answers for
    /// its owner tag; a source beyond the pool resolves to nothing.
    pub open spec fn source_slot_spec(&self, src: u16) -> Option<u8> {
        if src == PLAYER_TARGET {
            Some(0u8)
        } else if src as int >= self.g.ent.len() {
            None
        } else {
            let e = self.g.ent[src as int];
            if e.class64 == 3 && e.model65 <= 1 {
                self.owner_slot_w_spec(src)
            } else {
                self.owner_slot_w_spec(e.id24)
            }
        }
    }

    /// The attacking wizard's slot for a mailbox source (see
    /// [`Self::source_slot_spec`]).
    pub fn owner_slot_of_source(&self, src: u16) -> (r: Option<u8>)
        ensures
            r == self.source_slot_spec(src),
    {
        if src == PLAYER_TARGET {
            return Some(0);
        }
        if src as usize >= self.g.ent.len() {
            return None;
        }
        let e = &self.g.ent[src as usize];
        if e.class64 == 3 && e.model65 <= 1 {
            return self.rival_owner_slot(src);
        }
        self.rival_owner_slot(e.id24)
    }

    /// Does a credit of `amount` to the wizard tagged `owner` fit the
    /// purse's 32 bits?
    pub open spec fn credit_fits(&self, owner: u16, amount: u32) -> bool {
        if owner == PLAYER_TARGET {
            self.player.mana + amount <= u32::MAX
        } else {
            match rival_by_ent(self.rivals@, owner) {
                Some(k) => self.rivals[k].mana + amount <= u32::MAX,
                None => match mc2_rival_by_ent(self.mc2_rivals@, owner) {
                    Some(k) => self.mc2_rivals[k].mana + amount <= u32::MAX,
                    None => true,
                },
            }
        }
    }

    /// Credit stolen mana to the wizard tagged `owner`: the human by his
    /// sentinel, else the first MC1 rival on that entity, else the first
    /// MC2 rival; the purse takes `amount` up to its ceiling (see
    /// [`credited`]). An owner that is no wizard is credited nothing.
    pub fn credit_wizard_mana(&mut self, owner: u16, amount: u32)
        requires
            old(self).credit_fits(owner, amount),
        ensures
            ({
                let o = old(self);
                if owner == PLAYER_TARGET {
                    *final(self) == (World {
                        player: (Player { mana: credited(o.player.mana, o.player.mana_max, amount), ..o.player }),
                        ..*o
                    })
                } else {
                    match rival_by_ent(o.rivals@, owner) {
                        Some(k) => {
                            &&& final(self).rivals@ == o.rivals@.update(k, (Rival {
                                mana: credited(o.rivals[k].mana, o.rivals[k].mana_max, amount),
                                ..o.rivals[k]
                            }))
                            &&& *final(self) == (World { rivals: final(self).rivals, ..*o })
                        },
                        None => match mc2_rival_by_ent(o.mc2_rivals@, owner) {
                            Some(k) => {
                                &&& final(self).mc2_rivals@ == o.mc2_rivals@.update(k, (Mc2Rival {
                                    mana: credited(o.mc2_rivals[k].mana, o.mc2_rivals[k].mana_max, amount),
                                    ..o.mc2_rivals[k]
                                }))
                                &&& *final(self) == (World { mc2_rivals: final(self).mc2_rivals, ..*o })
                            },
                            None => *final(self) == *o,
                        },
                    }
                }
            }),
    {
        if owner == PLAYER_TARGET {
            let sum = self.player.mana + amount;
            self.player.mana = if sum < self.player.mana_max { sum } else { self.player.mana_max };
            return;
        }
        match self.find_rival_by_ent(owner) {
            Some(k) => {
                let sum = self.rivals[k].mana + amount;
                let cap = self.rivals[k].mana_max;
                self.rivals[k].mana = if sum < cap { sum } else { cap };
            },
            None => match self.find_mc2_rival_by_ent(owner) {
                Some(k) => {
                    let sum = self.mc2_rivals[k].mana + amount;
                    let cap = self.mc2_rivals[k].mana_max;
                    self.mc2_rivals[k].mana = if sum < cap { sum } else { cap };
                },
                None => {},
            },
        }
    }

    /// Rival `ri`'s live token of `spell`: the record its book entry
    /// names, when that is a standing class-12 token of that spell
    /// (model = spell) bound to the rival (f144), in a token state (the
    /// native `manifest_base` and up, or the imported phase-0
    /// `3·spell`).
    pub open spec fn rival_token_spec(&self, ri: int, spell: int) -> Option<usize> {
        let m = self.rivals[ri].owned[spell] as int;
        if m != 0 && m < self.g.ent.len() && {
            let e = self.g.ent[m];
            &&& e.class64 == 12
            &&& e.model65 as int == spell
            &&& (e.tick70 >= self.manifest_base || e.tick70 as int == spell * 3)
            &&& e.f144 == self.rivals[ri].ent
            &&& e.flags & 0x400 == 0
        } {
            Some(m as usize)
        } else {
            None
        }
    }

    /// Rival `ri`'s live token of `spell` (see [`Self::rival_token_spec`]).
    pub fn rival_token(&self, ri: usize, spell: usize) -> (r: Option<usize>)
        requires
            ri < self.rivals.len(),
            spell < 24,
        ensures
            r == self.rival_token_spec(ri as int, spell as int),
            r matches Some(m) ==> 1 <= m < self.g.ent.len(),
    {
        let m = self.rivals[ri].owned[spell] as usize;
        if m == 0 || m >= self.g.ent.len() {
            return None;
        }
        let e = &self.g.ent[m];
        let tick_ok = e.tick70 >= self.manifest_base || e.tick70 as usize == spell * 3;
        if e.class64 == 12 && e.model65 as usize == spell && tick_ok && e.f144 == self.rivals[ri].ent
            && e.flags & 0x400 == 0 {
            Some(m)
        } else {
            None
        }
    }

    /// The token gate of rival `ri`'s `spell` burst: refused while the
    /// rival's wizard is dying, or when the spell asks a castle store
    /// the rival's castle (if any) does not hold; otherwise a mid-burst
    /// tick passes and a full tick passes when the purse covers the
    /// spell's cost.
    pub open spec fn token_gate_spec(&self, ri: int, spell: int, full: bool) -> bool {
        let r = self.rivals[ri];
        let cost = self.mc1_spells[spell];
        let store_ok = cost.castle_req == 0 || match self.castle_of_spec(r.ent) {
            Some(c) => (if self.g.ent[c as int].f140 > 0 { self.g.ent[c as int].f140 as int } else { 0 }) >= cost.castle_req,
            None => false,
        };
        &&& self.g.ent[r.ent as int].act_life >= 0
        &&& store_ok
        &&& (!full || r.mana >= cost.possess_mana)
    }

    /// The token gate (see [`Self::token_gate_spec`]).
    pub fn rival_token_gate(&self, ri: usize, spell: usize, full: bool) -> (b: bool)
        requires
            ri < self.rivals.len(),
            (self.rivals[ri as int].ent as int) < self.g.ent.len(),
            spell < self.mc1_spells.len(),
        ensures
            b == self.token_gate_spec(ri as int, spell as int, full),
    {
        let r = &self.rivals[ri];
        if self.g.ent[r.ent as usize].act_life < 0 {
            return false;
        }
        let req = self.mc1_spells[spell].castle_req;
        if req != 0 {
            let stored_ok = match self.rival_castle(r.ent) {
                Some(c) => (if self.g.ent[c].f140 > 0 { self.g.ent[c].f140 as u32 } else { 0 }) >= req,
                None => false,
            };
            if !stored_ok {
                return false;
            }
        }
        !full || r.mana >= self.mc1_spells[spell].possess_mana
    }

    /// One tick of a burst token with a live counter, for Rebound and
    /// Shield alike. When the token check passes (see
    /// [`Self::token_gate_spec`]; a counter at its starting value
    /// charges the cast), the owner bit `bit` goes up on the rival's
    /// carpet and the mana-regen delta settles (see [`burst_delta`]);
    /// otherwise the counter drops to 1. Then a positive counter steps
    /// down (see [`burst_ents`]).
    #[verifier::spinoff_prover]
    #[verifier::rlimit(100)]
    fn rival_burst_token(&mut self, m: usize, ri: usize, spell: usize, bit: u32)
        requires
            old(self).g.wf(),
            m < old(self).g.ent.len(),
            ri < old(self).rivals.len(),
            (old(self).rivals[ri as int].ent as int) < old(self).g.ent.len(),
            spell < old(self).mc1_spells.len(),
            old(self).g.ent[m as int].f26 > 0,
            ({
                let full = old(self).g.ent[m as int].f26 == old(self).mc1_spells[spell as int].count as i16;
                old(self).token_gate_spec(ri as int, spell as int, full) ==> i32::MIN <= burst_delta(
                    old(self).rivals[ri as int].mana_delta,
                    old(self).mc1_spells[spell as int].possess_mana,
                    full,
                )
            }),
        ensures
            ({
                let o = old(self);
                let i = o.rivals[ri as int].ent as int;
                let full = o.g.ent[m as int].f26 == o.mc1_spells[spell as int].count as i16;
                let gate = o.token_gate_spec(ri as int, spell as int, full);
                let r0 = o.rivals[ri as int];
                &&& final(self).g.ent@ == burst_ents(o.g.ent@, m as int, i, bit, gate)
                &&& final(self).g == (Gen { ent: final(self).g.ent, ..o.g })
                &&& gate ==> final(self).rivals@ == o.rivals@.update(
                    ri as int,
                    Rival { mana_delta: burst_delta(r0.mana_delta, o.mc1_spells[spell as int].possess_mana, full) as i32, ..r0 },
                )
                &&& !gate ==> final(self).rivals == o.rivals
                &&& *final(self) == (World { g: final(self).g, rivals: final(self).rivals, ..*o })
            }),
    {
        let i = self.rivals[ri].ent as usize;
        let ghost o = *self;
        let full = self.g.ent[m].f26 == self.mc1_spells[spell].count as i16;
        let cost = self.mc1_spells[spell].possess_mana;
        let gate = self.rival_token_gate(ri, spell, full);
        if gate {
            let c: i32 = if cost > 0x7FFF_FFFF { 0x7FFF_FFFF } else { cost as i32 };
            let md = self.rivals[ri].mana_delta;
            let nd: i32 = if full {
                if md >= 0 { -c } else { md - c }
            } else if md > 0 {
                0
            } else {
                md
            };
            self.rivals[ri].mana_delta = nd;
            let mut ei = self.g.ent[i];
            ei.flags = ei.flags | bit;
            self.g.ent.set(i, ei);
        } else {
            let mut em = self.g.ent[m];
            em.f26 = 1;
            self.g.ent.set(m, em);
        }
        let mut em = self.g.ent[m];
        if em.f26 > 0 {
            em.f26 = em.f26 - 1;
            self.g.ent.set(m, em);
        }
        proof {
            assert(self.g.ent@ =~= burst_ents(o.g.ent@, m as int, i as int, bit, gate));
        }
    }

    /// The rival's Rebound token (spell 14) tick: an expired counter
    /// clears the carpet's rebound bit (0x8000); a live one runs the
    /// burst (see [`Self::rival_burst_token`]) with that bit. A rival
    /// without a carpet does nothing.
    pub fn rival_rebound_token_tick(&mut self, m: usize, ri: usize)
        requires
            old(self).g.wf(),
            m < old(self).g.ent.len(),
            ri < old(self).rivals.len(),
            (old(self).rivals[ri as int].ent as int) < old(self).g.ent.len(),
            14 < old(self).mc1_spells.len(),
            ({
                let full = old(self).g.ent[m as int].f26 == old(self).mc1_spells[14].count as i16;
                old(self).rivals[ri as int].ent != 0 && old(self).g.ent[m as int].f26 > 0 && old(self).token_gate_spec(ri as int, 14, full)
                    ==> i32::MIN <= burst_delta(old(self).rivals[ri as int].mana_delta, old(self).mc1_spells[14].possess_mana, full)
            }),
        ensures
            ({
                let o = old(self);
                let i = o.rivals[ri as int].ent as int;
                let full = o.g.ent[m as int].f26 == o.mc1_spells[14].count as i16;
                let gate = o.token_gate_spec(ri as int, 14, full);
                let r0 = o.rivals[ri as int];
                &&& i == 0 ==> *final(self) == *o
                &&& i != 0 && o.g.ent[m as int].f26 <= 0 ==> {
                    &&& final(self).g.ent@ == o.g.ent@.update(i, Ent { flags: o.g.ent[i].flags & !0x8000u32, ..o.g.ent[i] })
                    &&& final(self).g == (Gen { ent: final(self).g.ent, ..o.g })
                    &&& final(self).rivals == o.rivals
                    &&& *final(self) == (World { g: final(self).g, ..*o })
                }
                &&& i != 0 && o.g.ent[m as int].f26 > 0 ==> {
                    &&& final(self).g.ent@ == burst_ents(o.g.ent@, m as int, i, 0x8000, gate)
                    &&& final(self).g == (Gen { ent: final(self).g.ent, ..o.g })
                    &&& gate ==> final(self).rivals@ == o.rivals@.update(
                        ri as int,
                        Rival { mana_delta: burst_delta(r0.mana_delta, o.mc1_spells[14].possess_mana, full) as i32, ..r0 },
                    )
                    &&& !gate ==> final(self).rivals == o.rivals
                    &&& *final(self) == (World { g: final(self).g, rivals: final(self).rivals, ..*o })
                }
            }),
    {
        let i = self.rivals[ri].ent as usize;
        if i == 0 {
            return;
        }
        if self.g.ent[m].f26 <= 0 {
            let fl = self.g.ent[i].flags;
            self.g.ent[i].flags = fl & !0x8000u32;
            return;
        }
        self.rival_burst_token(m, ri, 14, 0x8000);
    }

    /// The rival's Shield token (spell 4) tick: a live counter runs the
    /// burst (see [`Self::rival_burst_token`]) with the shield bit
    /// (0x4000), which is only ever raised here; a rival without a
    /// carpet or an expired counter does nothing.
    pub fn rival_shield_token_tick(&mut self, m: usize, ri: usize)
        requires
            old(self).g.wf(),
            m < old(self).g.ent.len(),
            ri < old(self).rivals.len(),
            (old(self).rivals[ri as int].ent as int) < old(self).g.ent.len(),
            4 < old(self).mc1_spells.len(),
            ({
                let full = old(self).g.ent[m as int].f26 == old(self).mc1_spells[4].count as i16;
                old(self).rivals[ri as int].ent != 0 && old(self).g.ent[m as int].f26 > 0 && old(self).token_gate_spec(ri as int, 4, full)
                    ==> i32::MIN <= burst_delta(old(self).rivals[ri as int].mana_delta, old(self).mc1_spells[4].possess_mana, full)
            }),
        ensures
            ({
                let o = old(self);
                let i = o.rivals[ri as int].ent as int;
                let full = o.g.ent[m as int].f26 == o.mc1_spells[4].count as i16;
                let gate = o.token_gate_spec(ri as int, 4, full);
                let r0 = o.rivals[ri as int];
                &&& i == 0 || o.g.ent[m as int].f26 <= 0 ==> *final(self) == *o
                &&& i != 0 && o.g.ent[m as int].f26 > 0 ==> {
                    &&& final(self).g.ent@ == burst_ents(o.g.ent@, m as int, i, 0x4000, gate)
                    &&& final(self).g == (Gen { ent: final(self).g.ent, ..o.g })
                    &&& gate ==> final(self).rivals@ == o.rivals@.update(
                        ri as int,
                        Rival { mana_delta: burst_delta(r0.mana_delta, o.mc1_spells[4].possess_mana, full) as i32, ..r0 },
                    )
                    &&& !gate ==> final(self).rivals == o.rivals
                    &&& *final(self) == (World { g: final(self).g, rivals: final(self).rivals, ..*o })
                }
            }),
    {
        let i = self.rivals[ri].ent as usize;
        if i == 0 || self.g.ent[m].f26 <= 0 {
            return;
        }
        self.rival_burst_token(m, ri, 4, 0x4000);
    }

    /// The price of rival `ri`'s next castle: the standing castle
    /// token's live price (its f136, at least 0) when the book's castle
    /// entry names one, else the castle spell's base cost.
    pub open spec fn castle_price_spec(&self, ri: int) -> u32 {
        let m = self.rivals[ri].owned[SPELL_CASTLE as int] as int;
        if m != 0 && m < self.g.ent.len() && self.g.ent[m].class64 == 12 && self.g.ent[m].flags & 0x400 == 0 {
            if self.g.ent[m].f136 > 0 { self.g.ent[m].f136 as u32 } else { 0 }
        } else {
            self.mc1_spells[SPELL_CASTLE as int].possess_mana
        }
    }

    /// The price of rival `ri`'s next castle (see
    /// [`Self::castle_price_spec`]).
    pub fn rival_castle_price(&self, ri: usize) -> (p: u32)
        requires
            ri < self.rivals.len(),
            (SPELL_CASTLE as int) < self.mc1_spells.len(),
        ensures
            p == self.castle_price_spec(ri as int),
    {
        let m = self.rivals[ri].owned[SPELL_CASTLE] as usize;
        if m != 0 && m < self.g.ent.len() && self.g.ent[m].class64 == 12 && self.g.ent[m].flags & 0x400 == 0 {
            if self.g.ent[m].f136 > 0 { self.g.ent[m].f136 as u32 } else { 0 }
        } else {
            self.mc1_spells[SPELL_CASTLE].possess_mana
        }
    }
}


/// The identity keys of a roster: each rival's wizard entity and
/// whether it is out of the game.
pub open spec fn rival_keys(rs: Seq<Rival>) -> Seq<(u16, bool)> {
    Seq::new(rs.len(), |k: int| (rs[k].ent, rs[k].eliminated))
}

/// The index of the first rival still in the game on wizard entity
/// `ent`, by its roster keys.
pub open spec fn first_live(keys: Seq<(u16, bool)>, ent: u16) -> Option<int> {
    if exists|k: int| 0 <= k < keys.len() && #[trigger] keys[k] == (ent, false) {
        Some(choose|k: int| 0 <= k < keys.len() && #[trigger] keys[k] == (ent, false) && forall|q: int| 0 <= q < k ==> keys[q] != (ent, false))
    } else {
        None
    }
}

/// Can rival `r` arm the countdown of `spell`: not owned, not already
/// counting down, and allowed by its book?
pub open spec fn learn_armable(r: Rival, spell: int) -> bool {
    r.owned[spell] == 0 && r.learn[spell] == 0 && r.allowed[spell]
}

/// The first rival still in the game on wizard entity `ent` (see
/// [`first_live`]).
pub fn first_live_index(rs: &Vec<Rival>, ent: u16) -> (r: Option<usize>)
    ensures
        match r {
            Some(k) => first_live(rival_keys(rs@), ent) == Some(k as int) && k < rs.len(),
            None => first_live(rival_keys(rs@), ent).is_none(),
        },
{
    let ghost keys = rival_keys(rs@);
    let mut k: usize = 0;
    while k < rs.len()
        invariant
            k <= rs.len(),
            keys == rival_keys(rs@),
            forall|q: int| 0 <= q < k ==> keys[q] != (ent, false),
        decreases rs.len() - k,
    {
        if rs[k].ent == ent && !rs[k].eliminated {
            proof {
                assert(keys[k as int] == (ent, false));
                let c = choose|c: int| 0 <= c < keys.len() && #[trigger] keys[c] == (ent, false) && forall|q: int| 0 <= q < c ==> keys[q] != (ent, false);
                if c < k {
                } else if c > k {
                    assert(keys[k as int] != (ent, false));
                }
            }
            return Some(k);
        }
        proof {
            assert(keys[k as int] != (ent, false));
        }
        k = k + 1;
    }
    None
}

impl World {
    /// Is rival `k` reached by the jar of the first `c` chain records:
    /// some AI carpet (model 1) among them whose first rival still in
    /// the game is `k`?
    pub open spec fn learn_reached(&self, k: int, c: int) -> bool {
        exists|q: int| 0 <= q < c && #[trigger] self.g.ent[self.wiz_chain[q] as int].model65 == 1
            && first_live(rival_keys(self.rivals@), self.wiz_chain[q]) == Some(k)
    }

    /// The rivals `rs` after the jar's arm pass over the first `c`
    /// chain records of `o`: each reached armable rival's countdown of
    /// `spell` at 200, every other rival as in `o`.
    #[verifier::opaque]
    pub open spec fn armed_upto(o: World, rs: Seq<Rival>, c: int, spell: int) -> bool {
        &&& rs.len() == o.rivals.len()
        &&& forall|k: int| 0 <= k < o.rivals.len() ==> if o.learn_reached(k, c) && learn_armable(o.rivals[k], spell) {
            &&& (#[trigger] rs[k]).learn@ == o.rivals[k].learn@.update(spell, 200)
            &&& rs[k] == (Rival { learn: rs[k].learn, ..o.rivals[k] })
        } else {
            rs[k] == o.rivals[k]
        }
    }

    /// One record of the arm pass: chain record `c` reaches `hit` (its
    /// first rival still in the game, when it is an AI carpet), whose
    /// countdown arms when armable.
    proof fn lemma_arm_step(o: World, before: Seq<Rival>, after: Seq<Rival>, c: int, spell: int, hit: Option<int>)
        requires
            0 <= c < o.wiz_chain.len(),
            0 <= spell < 24,
            World::armed_upto(o, before, c, spell),
            rival_keys(before) == rival_keys(o.rivals@),
            hit == (if o.g.ent[o.wiz_chain[c] as int].model65 == 1 {
                first_live(rival_keys(o.rivals@), o.wiz_chain[c])
            } else {
                None
            }),
            hit matches Some(ri) ==> 0 <= ri < before.len(),
            after.len() == before.len(),
            forall|k: int| 0 <= k < before.len() && hit != Some(k) ==> after[k] == before[k],
            hit matches Some(ri) ==> (learn_armable(before[ri], spell) ==> {
                &&& after[ri].learn@ == before[ri].learn@.update(spell, 200)
                &&& after[ri] == (Rival { learn: after[ri].learn, ..before[ri] })
            }),
            hit matches Some(ri) ==> (!learn_armable(before[ri], spell) ==> after[ri] == before[ri]),
        ensures
            World::armed_upto(o, after, c + 1, spell),
    {
        reveal(World::armed_upto);
        assert forall|k: int| 0 <= k < o.rivals.len() implies if o.learn_reached(k, c + 1) && learn_armable(o.rivals[k], spell) {
            &&& (#[trigger] after[k]).learn@ == o.rivals[k].learn@.update(spell, 200)
            &&& after[k] == (Rival { learn: after[k].learn, ..o.rivals[k] })
        } else {
            after[k] == o.rivals[k]
        } by {
            if hit == Some(k) {
                assert(o.learn_reached(k, c + 1)) by {
                    assert(o.g.ent[o.wiz_chain[c] as int].model65 == 1);
                }
                if !o.learn_reached(k, c) && learn_armable(o.rivals[k], spell) {
                    assert(before[k] == o.rivals[k]);
                }
                if o.learn_reached(k, c) && learn_armable(o.rivals[k], spell) {
                    assert(before[k].learn[spell] == 200);
                    assert(!learn_armable(before[k], spell));
                }
            } else {
                if o.learn_reached(k, c + 1) {
                    let q = choose|q: int| 0 <= q < c + 1 && #[trigger] o.g.ent[o.wiz_chain[q] as int].model65 == 1
                        && first_live(rival_keys(o.rivals@), o.wiz_chain[q]) == Some(k);
                    assert(q != c);
                    assert(o.learn_reached(k, c));
                }
            }
        }
    }

    /// The jar's arm pass for `spell`: every AI carpet (model 1) of the
    /// tick-top chain whose first rival still in the game neither owns
    /// nor is learning the spell and is allowed it arms that rival's
    /// 200-tick countdown. Nothing else changes.
    pub fn rival_learn_arm(&mut self, spell: usize)
        requires
            spell < 24,
            forall|c: int| 0 <= c < old(self).wiz_chain.len() ==> (#[trigger] old(self).wiz_chain[c] as int) < old(self).g.ent.len(),
        ensures
            *final(self) == (World { rivals: final(self).rivals, ..*old(self) }),
            final(self).rivals.len() == old(self).rivals.len(),
            forall|k: int| 0 <= k < old(self).rivals.len() ==> if old(self).learn_reached(k, old(self).wiz_chain.len() as int)
                && learn_armable(old(self).rivals[k], spell as int) {
                &&& (#[trigger] final(self).rivals[k]).learn@ == old(self).rivals[k].learn@.update(spell as int, 200)
                &&& final(self).rivals[k] == (Rival { learn: final(self).rivals[k].learn, ..old(self).rivals[k] })
            } else {
                final(self).rivals[k] == old(self).rivals[k]
            },
    {
        let ghost o = *self;
        let mut rs: Vec<Rival> = Vec::new();
        std::mem::swap(&mut rs, &mut self.rivals);
        proof {
            assert(World::armed_upto(o, rs@, 0, spell as int)) by {
                reveal(World::armed_upto);
            }
        }
        let n = self.wiz_chain.len();
        let mut c: usize = 0;
        while c < n
            invariant
                n == self.wiz_chain.len(),
                c <= n,
                spell < 24,
                self.wiz_chain == o.wiz_chain,
                self.g == o.g,
                rival_keys(rs@) == rival_keys(o.rivals@),
                forall|q: int| 0 <= q < n ==> (#[trigger] self.wiz_chain[q] as int) < self.g.ent.len(),
                World::armed_upto(o, rs@, c as int, spell as int),
            decreases n - c,
        {
            let ghost before = rs@;
            let j = self.wiz_chain[c];
            let hit = if self.g.ent[j as usize].model65 == 1 {
                first_live_index(&rs, j)
            } else {
                None
            };
            match hit {
                Some(ri) => {
                    if rs[ri].owned[spell] == 0 && rs[ri].learn[spell] == 0 && rs[ri].allowed[spell] {
                        rs[ri].learn[spell] = 200;
                        proof {
                            assert(rs[ri as int].learn@ =~= before[ri as int].learn@.update(spell as int, 200));
                        }
                    }
                },
                None => {},
            }
            proof {
                assert(rival_keys(rs@) =~= rival_keys(before));
                let ghost h: Option<int> = match hit {
                    Some(ri) => Some(ri as int),
                    None => None,
                };
                World::lemma_arm_step(o, before, rs@, c as int, spell as int, h);
            }
            c = c + 1;
        }
        std::mem::swap(&mut rs, &mut self.rivals);
        proof {
            reveal(World::armed_upto);
        }
    }

    /// Spell `s`'s countdown step for rival `ri` (see [`learn_step`]):
    /// the rival's other spells, its other fields and the other rivals
    /// stay; the pool only shrinks, live records are kept.
    #[verifier::spinoff_prover]
    #[verifier::rlimit(100)]
    fn rival_learn_one(&mut self, ri: usize, s: usize)
        requires
            old(self).g.wf(),
            ri < old(self).rivals.len(),
            s < 24,
            (old(self).rivals[ri as int].ent as int) < old(self).g.ent.len(),
        ensures
            *final(self) == (World { g: final(self).g, rivals: final(self).rivals, ..*old(self) }),
            final(self).g.wf(),
            keeps_live_records(&old(self).g, &final(self).g),
            final(self).g.keeps_world(&old(self).g),
            final(self).g.sounds == old(self).g.sounds,
            final(self).g.free.len() <= old(self).g.free.len(),
            final(self).rivals.len() == old(self).rivals.len(),
            forall|k: int| 0 <= k < old(self).rivals.len() && k != ri ==> #[trigger] final(self).rivals[k] == old(self).rivals[k],
            final(self).rivals[ri as int] == (Rival {
                owned: final(self).rivals[ri as int].owned,
                known: final(self).rivals[ri as int].known,
                learn: final(self).rivals[ri as int].learn,
                acq: final(self).rivals[ri as int].acq,
                ..old(self).rivals[ri as int]
            }),
            final(self).rivals[ri as int].owned@ == old(self).rivals[ri as int].owned@.update(s as int, final(self).rivals[ri as int].owned[s as int]),
            final(self).rivals[ri as int].learn@ == old(self).rivals[ri as int].learn@.update(s as int, final(self).rivals[ri as int].learn[s as int]),
            final(self).rivals[ri as int].known@ == old(self).rivals[ri as int].known@.update(s as int, final(self).rivals[ri as int].known[s as int]),
            forall|k: int| 0 <= k < 24 && old(self).rivals[ri as int].acq[k] != 0 ==> #[trigger] final(self).rivals[ri as int].acq[k]
                == old(self).rivals[ri as int].acq[k],
            learn_step(old(self).rivals[ri as int], final(self).rivals[ri as int], s as int, &final(self).g),
    {
        if self.rivals[ri].owned[s] != 0 {
            return;
        }
        let l = self.rivals[ri].learn[s];
        if l > 1 {
            self.rivals[ri].learn[s] = l - 1;
            return;
        }
        if l == 0 {
            return;
        }
        let owner = self.rivals[ri].ent;
        let ghost w0 = *self;
        let mm = self.mint_manifestation(s, owner);
        let ghost w1 = *self;
        let mut r = self.rivals.remove(ri);
        Self::rival_expire(&mut r, s, mm);
        self.rivals.insert(ri, r);
        proof {
            assert(self.rivals@ =~= old(self).rivals@.update(ri as int, r));
            match mm {
                Some(m) => {
                    assert(w1.g.ent[m as int].class64 == 12);
                },
                None => {},
            }
        }
    }

    /// The expiry's bookkeeping on the rival: the countdown cleared,
    /// the spell known, and a conjured token `m` owned and appended to
    /// the acquisition list.
    fn rival_expire(r: &mut Rival, s: usize, mm: Option<usize>)
        requires
            s < 24,
            mm matches Some(m) ==> m < 0x8000,
        ensures
            *final(r) == (Rival { owned: final(r).owned, known: final(r).known, learn: final(r).learn, acq: final(r).acq, ..*old(r) }),
            final(r).learn@ == old(r).learn@.update(s as int, 0),
            final(r).known@ == old(r).known@.update(s as int, true),
            final(r).owned@ == old(r).owned@.update(s as int, match mm {
                Some(m) => m as u16,
                None => old(r).owned[s as int],
            }),
            forall|k: int| 0 <= k < 24 && old(r).acq[k] != 0 ==> #[trigger] final(r).acq[k] == old(r).acq[k],
    {
        r.learn[s] = 0;
        r.known[s] = true;
        match mm {
            Some(m) => {
                r.owned[s] = m as u16;
                r.acq_push(m as u16);
            },
            None => {},
        }
    }

    /// The countdown half of spell learning: while the human's carpet
    /// is on the tick-top roster (the clock), every spell the rival
    /// does not own steps its countdown (see [`learn_step`]); an expiry
    /// makes the spell known and conjures the rival's own token of it,
    /// appended to the acquisition list. With the clock stopped nothing
    /// changes.
    pub fn rival_learn_tick(&mut self, ri: usize)
        requires
            old(self).g.wf(),
            ri < old(self).rivals.len(),
            (old(self).rivals[ri as int].ent as int) < old(self).g.ent.len(),
        ensures
            !old(self).human_bucket_alive ==> *final(self) == *old(self),
            *final(self) == (World { g: final(self).g, rivals: final(self).rivals, ..*old(self) }),
            final(self).g.wf(),
            keeps_live_records(&old(self).g, &final(self).g),
            final(self).g.keeps_world(&old(self).g),
            final(self).g.sounds == old(self).g.sounds,
            final(self).rivals.len() == old(self).rivals.len(),
            forall|k: int| 0 <= k < old(self).rivals.len() && k != ri ==> #[trigger] final(self).rivals[k] == old(self).rivals[k],
            final(self).rivals[ri as int] == (Rival {
                owned: final(self).rivals[ri as int].owned,
                known: final(self).rivals[ri as int].known,
                learn: final(self).rivals[ri as int].learn,
                acq: final(self).rivals[ri as int].acq,
                ..old(self).rivals[ri as int]
            }),
            forall|k: int| 0 <= k < 24 && old(self).rivals[ri as int].acq[k] != 0 ==> #[trigger] final(self).rivals[ri as int].acq[k]
                == old(self).rivals[ri as int].acq[k],
            old(self).human_bucket_alive ==> forall|q: int|
                0 <= q < 24 ==> #[trigger] learn_step(old(self).rivals[ri as int], final(self).rivals[ri as int], q, &final(self).g),
    {
        if !self.human_bucket_alive {
            return;
        }
        let ghost o = *self;
        let mut s: usize = 0;
        while s < 24
            invariant
                s <= 24,
                ri < self.rivals.len(),
                (o.rivals[ri as int].ent as int) < o.g.ent.len(),
                o.g.wf(),
                self.g.wf(),
                keeps_live_records(&o.g, &self.g),
                self.g.keeps_world(&o.g),
                self.g.sounds == o.g.sounds,
                *self == (World { g: self.g, rivals: self.rivals, ..o }),
                self.rivals.len() == o.rivals.len(),
                forall|k: int| 0 <= k < o.rivals.len() && k != ri ==> #[trigger] self.rivals[k] == o.rivals[k],
                self.rivals[ri as int] == (Rival {
                    owned: self.rivals[ri as int].owned,
                    known: self.rivals[ri as int].known,
                    learn: self.rivals[ri as int].learn,
                    acq: self.rivals[ri as int].acq,
                    ..o.rivals[ri as int]
                }),
                forall|k: int| 0 <= k < 24 && o.rivals[ri as int].acq[k] != 0 ==> #[trigger] self.rivals[ri as int].acq[k]
                    == o.rivals[ri as int].acq[k],
                forall|q: int| 0 <= q < s ==> #[trigger] learn_step(o.rivals[ri as int], self.rivals[ri as int], q, &self.g),
                forall|q: int| s <= q < 24 ==> #[trigger] self.rivals[ri as int].owned[q] == o.rivals[ri as int].owned[q],
                forall|q: int| s <= q < 24 ==> #[trigger] self.rivals[ri as int].learn[q] == o.rivals[ri as int].learn[q],
                forall|q: int| s <= q < 24 ==> #[trigger] self.rivals[ri as int].known[q] == o.rivals[ri as int].known[q],
            decreases 24 - s,
        {
            let ghost before = *self;
            self.rival_learn_one(ri, s);
            proof {
                let r0 = o.rivals[ri as int];
                let rb = before.rivals[ri as int];
                let r1 = self.rivals[ri as int];
                assert(learn_step(rb, r1, s as int, &self.g));
                assert forall|q: int| 0 <= q < s + 1 implies #[trigger] learn_step(r0, r1, q, &self.g) by {
                    if q < s {
                        assert(learn_step(r0, rb, q, &before.g));
                        assert(r1.owned[q] == rb.owned[q]);
                        assert(r1.learn[q] == rb.learn[q]);
                        assert(r1.known[q] == rb.known[q]);
                        let t = rb.owned[q] as int;
                        if r0.owned[q] == 0 && r0.learn[q] == 1 && t != 0 {
                            assert(before.g.ent[t].class64 == 12);
                            assert(self.g.ent[t] == before.g.ent[t]);
                        }
                    } else {
                        assert(r0.owned[q] == rb.owned[q]);
                        assert(r0.learn[q] == rb.learn[q]);
                        assert(r0.known[q] == rb.known[q]);
                        assert(r0.ent == rb.ent);
                    }
                }
                assert forall|q: int| s + 1 <= q < 24 implies #[trigger] r1.owned[q] == r0.owned[q] by {
                    assert(r1.owned[q] == rb.owned[q]);
                }
                assert forall|q: int| s + 1 <= q < 24 implies #[trigger] r1.learn[q] == r0.learn[q] by {
                    assert(r1.learn[q] == rb.learn[q]);
                }
                assert forall|q: int| s + 1 <= q < 24 implies #[trigger] r1.known[q] == r0.known[q] by {
                    assert(r1.known[q] == rb.known[q]);
                }
            }
            s = s + 1;
        }
    }

}


/// A lane array widened to `i64`, in order.
pub open spec fn lane_u16(a: Seq<u16>) -> Seq<i64> {
    Seq::new(a.len(), |k: int| a[k] as i64)
}

/// A flag lane array as 0/1.
pub open spec fn lane_bool(a: Seq<bool>) -> Seq<i64> {
    Seq::new(a.len(), |k: int| if a[k] { 1i64 } else { 0i64 })
}

/// A signed lane array widened to `i64`.
pub open spec fn lane_i32(a: Seq<i32>) -> Seq<i64> {
    Seq::new(a.len(), |k: int| a[k] as i64)
}

/// Widen a `u16` lane array.
fn widen_u16(a: &[u16]) -> (v: Vec<i64>)
    ensures
        v@ == lane_u16(a@),
{
    let mut v: Vec<i64> = Vec::new();
    let mut k: usize = 0;
    while k < a.len()
        invariant
            k <= a@.len(),
            v@ =~= lane_u16(a@.take(k as int)),
        decreases a@.len() - k,
    {
        v.push(a[k] as i64);
        k = k + 1;
        proof {
            assert(v@ =~= lane_u16(a@.take(k as int)));
        }
    }
    proof {
        assert(a@.take(a@.len() as int) =~= a@);
    }
    v
}

/// Widen a flag lane array to 0/1.
fn widen_bool(a: &[bool]) -> (v: Vec<i64>)
    ensures
        v@ == lane_bool(a@),
{
    let mut v: Vec<i64> = Vec::new();
    let mut k: usize = 0;
    while k < a.len()
        invariant
            k <= a@.len(),
            v@ =~= lane_bool(a@.take(k as int)),
        decreases a@.len() - k,
    {
        v.push(if a[k] { 1 } else { 0 });
        k = k + 1;
        proof {
            assert(v@ =~= lane_bool(a@.take(k as int)));
        }
    }
    proof {
        assert(a@.take(a@.len() as int) =~= a@);
    }
    v
}

/// Widen a signed lane array.
fn widen_i32(a: &[i32]) -> (v: Vec<i64>)
    ensures
        v@ == lane_i32(a@),
{
    let mut v: Vec<i64> = Vec::new();
    let mut k: usize = 0;
    while k < a.len()
        invariant
            k <= a@.len(),
            v@ =~= lane_i32(a@.take(k as int)),
        decreases a@.len() - k,
    {
        v.push(a[k] as i64);
        k = k + 1;
        proof {
            assert(v@ =~= lane_i32(a@.take(k as int)));
        }
    }
    proof {
        assert(a@.take(a@.len() as int) =~= a@);
    }
    v
}

impl Rival {
    /// The rival's brain registers as named lanes for the shadow
    /// compare: the scalars (desired speed, dodge, knockback magnitude
    /// and bearing, grace, regen stall, life rate, the retail state
    /// byte, burst, the poverty latch as 0/1, the target signature, the
    /// pending mana delta), then the arrays (hate, war as 0/1, learn,
    /// cooldown, owned, acquisitions), each widened to `i64`.
    pub fn wiz_shadow_lanes(&self) -> (r: (Vec<(&'static str, i64)>, Vec<(&'static str, Vec<i64>)>))
        ensures
            r.0@.len() == 12,
            r.0@[0] == ("cmd_speed", self.vdes as i64),
            r.0@[1] == ("strafe", self.jink as i64),
            r.0@[2] == ("knock_mag", self.knock_mag as i64),
            r.0@[3] == ("knock_dir", self.knock_dir as i64),
            r.0@[4] == ("grace", self.grace as i64),
            r.0@[5] == ("regen_stall", self.regen_stall as i64),
            r.0@[6] == ("life_rate", self.life_rate as i64),
            r.0@[7] == ("ai_state", to_retail_spec(self.state) as i64),
            r.0@[8] == ("burst", self.burst as i64),
            r.0@[9] == ("poverty", if self.poverty { 1i64 } else { 0i64 }),
            r.0@[10] == ("target_sig", self.target_sig as i64),
            r.0@[11] == ("mana_delta", self.mana_delta as i64),
            r.1@.len() == 6,
            r.1@[0].0 == "hate" && r.1@[0].1@ == lane_u16(self.hate@),
            r.1@[1].0 == "war" && r.1@[1].1@ == lane_bool(self.war@),
            r.1@[2].0 == "learn" && r.1@[2].1@ == lane_u16(self.learn@),
            r.1@[3].0 == "cooldown" && r.1@[3].1@ == lane_u16(self.cooldown@),
            r.1@[4].0 == "owned" && r.1@[4].1@ == lane_u16(self.owned@),
            r.1@[5].0 == "acq" && r.1@[5].1@ == lane_i32(self.acq@),
    {
        let mut scalars: Vec<(&'static str, i64)> = Vec::new();
        scalars.push(("cmd_speed", self.vdes as i64));
        scalars.push(("strafe", self.jink as i64));
        scalars.push(("knock_mag", self.knock_mag as i64));
        scalars.push(("knock_dir", self.knock_dir as i64));
        scalars.push(("grace", self.grace as i64));
        scalars.push(("regen_stall", self.regen_stall as i64));
        scalars.push(("life_rate", self.life_rate as i64));
        scalars.push(("ai_state", self.state.to_retail() as i64));
        scalars.push(("burst", self.burst as i64));
        scalars.push(("poverty", if self.poverty { 1 } else { 0 }));
        scalars.push(("target_sig", self.target_sig as i64));
        scalars.push(("mana_delta", self.mana_delta as i64));
        let mut arrays: Vec<(&'static str, Vec<i64>)> = Vec::new();
        arrays.push(("hate", widen_u16(self.hate.as_slice())));
        arrays.push(("war", widen_bool(self.war.as_slice())));
        arrays.push(("learn", widen_u16(self.learn.as_slice())));
        arrays.push(("cooldown", widen_u16(self.cooldown.as_slice())));
        arrays.push(("owned", widen_u16(self.owned.as_slice())));
        arrays.push(("acq", widen_i32(self.acq.as_slice())));
        (scalars, arrays)
    }
}

/// The altitude nudge toward `tz`: `z + sign(z − tz)·v14`, truncated
/// to 16 bits (v14 is the negative settle step, so above sinks and
/// below climbs).
pub open spec fn hover_z(z: i16, tz: i16, v14: i16) -> i16 {
    let step: int = if z > tz { v14 as int } else if z < tz { -v14 } else { 0 };
    wi16(z + step)
}

impl World {
    /// Nudge carpet `i`'s altitude toward `tz` by its behavior row's
    /// v_14 (see [`hover_z`]).
    pub fn rival_hover_toward(&mut self, i: usize, tz: i16)
        requires
            i < old(self).g.ent.len(),
            (old(self).g.ent[i as int].row156 as int) < old(self).mc1_behavior.len(),
        ensures
            final(self).g.ent@ == old(self).g.ent@.update(i as int, (Ent {
                z: hover_z(old(self).g.ent[i as int].z, tz, old(self).mc1_behavior[old(self).g.ent[i as int].row156 as int].v_14),
                ..old(self).g.ent[i as int]
            })),
            final(self).g == (Gen { ent: final(self).g.ent, ..old(self).g }),
            *final(self) == (World { g: final(self).g, ..*old(self) }),
    {
        let v14 = self.mc1_behavior[self.g.ent[i].row156 as usize].v_14;
        let z = self.g.ent[i].z;
        let step: i32 = if z > tz { v14 as i32 } else if z < tz { -(v14 as i32) } else { 0 };
        let nz: i32 = z as i32 + step;
        self.g.ent[i].z = #[verifier::truncate] (nz as i16);
        proof {
            assert(#[verifier::truncate] (nz as i16) == wi16(nz as int)) by (bit_vector)
                requires
                    -0x10000 <= nz <= 0x10000;
        }
    }

    /// Aim carpet `i`'s desired yaw (f34) at (tx, ty) (see
    /// [`Gen::angle_between`]); the target's height plays no part (the
    /// pitch is set at cast time).
    pub fn rival_face_target(&mut self, i: usize, tx: u16, ty: u16, _tz: i16)
        requires
            i < old(self).g.ent.len(),
        ensures
            final(self).g.ent@ == old(self).g.ent@.update(i as int, (Ent {
                f34: bearing_spec(wrap_diff(old(self).g.ent[i as int].x, tx), wrap_diff(old(self).g.ent[i as int].y, ty)) as u16,
                ..old(self).g.ent[i as int]
            })),
            final(self).g == (Gen { ent: final(self).g.ent, ..old(self).g }),
            *final(self) == (World { g: final(self).g, ..*old(self) }),
    {
        let px = self.g.ent[i].x;
        let py = self.g.ent[i].y;
        self.g.ent[i].f34 = Gen::angle_between(px, py, tx, ty);
    }
}


impl World {
    /// Re-anchor rival `ri`'s brain on imported registers: the state
    /// from its retail byte, the target and site off the carpet (f146,
    /// the destination), the stored signature kept raw (the human's
    /// sentinel for him), the burst, the poverty latch (nonzero), the
    /// cooldowns, countdowns and hate verbatim, war nonzero, the owned
    /// slots verbatim with every owned spell known, the acquisition
    /// list in order, the life rate and regen stall.
    #[verifier::spinoff_prover]
    pub fn reanchor_rival_ai(
        &mut self,
        ri: usize,
        ai_state: u8,
        burst: i16,
        poverty: u16,
        cooldown: &[u16; 24],
        learn: &[u16; 24],
        hate: &[u16; 8],
        war: &[u16; 8],
        owned_slots: &[u16; 24],
        spell_list: &[i32; 24],
        life_rate: u16,
        regen_stall: u16,
        stored_sig: u16,
    )
        requires
            ri < old(self).rivals.len(),
            (old(self).rivals[ri as int].ent as int) < old(self).g.ent.len(),
        ensures
            ({
                let o = old(self);
                let r = o.rivals[ri as int];
                let e = o.g.ent[r.ent as int];
                let n = final(self).rivals[ri as int];
                &&& final(self).rivals@ == o.rivals@.update(ri as int, n)
                &&& n == (Rival {
                    state: from_retail_spec(ai_state),
                    target: e.f146,
                    target_sig: if e.f146 == PLAYER_TARGET { PLAYER_TARGET } else { stored_sig },
                    burst,
                    poverty: poverty != 0,
                    cooldown: *cooldown,
                    learn: *learn,
                    site: (e.dest_x, e.dest_y),
                    hate: *hate,
                    war: n.war,
                    owned: *owned_slots,
                    known: n.known,
                    acq: *spell_list,
                    life_rate: life_rate as i32,
                    regen_stall,
                    ..r
                })
                &&& n.war@ == Seq::new(8, |k: int| war[k] != 0)
                &&& n.known@ == Seq::new(24, |k: int| owned_slots[k] != 0 || r.known[k])
                &&& *final(self) == (World { rivals: final(self).rivals, ..*o })
            }),
    {
        let e = self.g.ent[self.rivals[ri].ent as usize];
        let target = e.f146;
        let sig = if target == PLAYER_TARGET { PLAYER_TARGET } else { stored_sig };
        let mut wv: [bool; 8] = [false; 8];
        let mut k: usize = 0;
        while k < 8
            invariant
                k <= 8,
                forall|q: int| 0 <= q < k ==> wv[q] == (war[q] != 0),
            decreases 8 - k,
        {
            wv[k] = war[k] != 0;
            k = k + 1;
        }
        let mut kn: [bool; 24] = self.rivals[ri].known;
        let ghost k0 = kn;
        let mut s: usize = 0;
        while s < 24
            invariant
                s <= 24,
                forall|q: int| 0 <= q < s ==> kn[q] == (owned_slots[q] != 0 || k0[q]),
                forall|q: int| s <= q < 24 ==> kn[q] == k0[q],
            decreases 24 - s,
        {
            if owned_slots[s] != 0 {
                kn[s] = true;
            }
            s = s + 1;
        }
        let st = AiState::from_retail(ai_state);
        self.rivals[ri].state = st;
        self.rivals[ri].target = target;
        self.rivals[ri].target_sig = sig;
        self.rivals[ri].burst = burst;
        self.rivals[ri].poverty = poverty != 0;
        self.rivals[ri].cooldown = *cooldown;
        self.rivals[ri].learn = *learn;
        self.rivals[ri].site = (e.dest_x, e.dest_y);
        self.rivals[ri].hate = *hate;
        self.rivals[ri].war = wv;
        self.rivals[ri].owned = *owned_slots;
        self.rivals[ri].known = kn;
        self.rivals[ri].acq = *spell_list;
        self.rivals[ri].life_rate = life_rate as i32;
        self.rivals[ri].regen_stall = regen_stall;
        proof {
            assert(self.rivals[ri as int].war@ =~= Seq::new(8, |q: int| war[q] != 0));
            assert(self.rivals[ri as int].known@ =~= Seq::new(24, |q: int| owned_slots[q] != 0 || k0[q]));
            assert(self.rivals@ =~= old(self).rivals@.update(ri as int, self.rivals[ri as int]));
        }
    }
}


/// The home supercell of one axis coordinate: the coordinate read as
/// a signed 16-bit value, divided by 16384 truncating toward zero.
pub open spec fn supercell(v: u16) -> int {
    tdiv(if v >= 0x8000 { v - 0x10000 } else { v as int }, 16384)
}

/// The `k`-th castle-site candidate of a scout from (sx, sy): the
/// 4×4 supercells row by row from the home one (wrapping), each probed
/// at its corner and then 0x1F00 further in on both axes.
pub open spec fn scout_cand(sx: u16, sy: u16, k: int) -> (u16, u16) {
    let bx = ((supercell(sx) + (k / 2) % 4) % 4) * 16384;
    let by = ((supercell(sy) + k / 8) % 4) * 16384;
    let off: int = if k % 2 == 1 { 0x1F00 } else { 0 };
    ((bx + off) as u16, (by + off) as u16)
}

/// The foreign castle nearest (tx, ty) among the first `c` records of
/// `chain` (model 2, not owned by `me`), the earliest among equals,
/// with its squared distance.
pub open spec fn near_castle(ents: Seq<Ent>, chain: Seq<u16>, me: u16, tx: u16, ty: u16, c: int) -> Option<(u16, u16, int)>
    decreases c,
{
    if c <= 0 {
        None
    } else {
        let prev = near_castle(ents, chain, me, tx, ty, c - 1);
        let e = ents[chain[c - 1] as int];
        if e.model65 == 2 && e.id24 != me {
            let d = dist2_spec(tx, ty, e.x, e.y);
            match prev {
                Some(p) => if d < p.2 { Some((e.x, e.y, d)) } else { prev },
                None => Some((e.x, e.y, d)),
            }
        } else {
            prev
        }
    }
}

/// Is a candidate clear of its nearest foreign castle: none at all,
/// or a Chebyshev gap (signed 16-bit differences) over 12288?
pub open spec fn site_clear(near: Option<(u16, u16, int)>, tx: u16, ty: u16) -> bool {
    match near {
        None => true,
        Some(p) => {
            let ddx = wi16(tx - p.0) as int;
            let ddy = wi16(ty - p.1) as int;
            (if ddx < 0 { -ddx } else { ddx }) > 12288 || (if ddy < 0 { -ddy } else { ddy }) > 12288
        },
    }
}

/// Two pools that agree on every chained record give the same
/// nearest castle.
proof fn lemma_near_castle_frame(a: Seq<Ent>, b: Seq<Ent>, chain: Seq<u16>, me: u16, tx: u16, ty: u16, c: int)
    requires
        0 <= c <= chain.len(),
        forall|q: int| 0 <= q < chain.len() ==> a[#[trigger] chain[q] as int] == b[chain[q] as int],
    ensures
        near_castle(a, chain, me, tx, ty, c) == near_castle(b, chain, me, tx, ty, c),
    decreases c,
{
    if c > 0 {
        lemma_near_castle_frame(a, b, chain, me, tx, ty, c - 1);
        assert(a[chain[c - 1] as int] == b[chain[c - 1] as int]);
    }
}

/// Scout candidate `k` (see [`scout_cand`]) from the supercell
/// (`cx0`, `cy0`) of (sx, sy).
#[verifier::spinoff_prover]
#[verifier::rlimit(60)]
fn scout_cand_at(sx: Ghost<u16>, sy: Ghost<u16>, cx0: i32, cy0: i32, k: usize) -> (t: (u16, u16))
    requires
        cx0 as int == supercell(sx@),
        cy0 as int == supercell(sy@),
        -2 <= cx0 <= 1,
        -2 <= cy0 <= 1,
        k < 32,
    ensures
        t == scout_cand(sx@, sy@, k as int),
{
    let dx: i32 = ((k / 2) % 4) as i32;
    let dy: i32 = (k / 8) as i32;
    let bx: u32 = ((((cx0 + dx) % 4) + 4) % 4) as u32 * 16384;
    let by: u32 = ((((cy0 + dy) % 4) + 4) % 4) as u32 * 16384;
    let off: u32 = if k % 2 == 1 { 0x1F00 } else { 0 };
    ((bx + off) as u16, (by + off) as u16)
}

/// Is (tx, ty) clear of `near` (see [`site_clear`])?
fn site_clear_at(near: Option<(u16, u16, i64)>, tx: u16, ty: u16) -> (ok: bool)
    ensures
        ok == site_clear(
            match near {
                Some(p) => Some((p.0, p.1, p.2 as int)),
                None => None,
            },
            tx,
            ty,
        ),
{
    match near {
        None => true,
        Some((cx, cy, _)) => {
            let ddx: i32 = if tx >= cx { (tx - cx) as i32 } else { tx as i32 - cx as i32 + 0x10000 };
            let ddy: i32 = if ty >= cy { (ty - cy) as i32 } else { ty as i32 - cy as i32 + 0x10000 };
            let sdx: i32 = if ddx >= 0x8000 { ddx - 0x10000 } else { ddx };
            let sdy: i32 = if ddy >= 0x8000 { ddy - 0x10000 } else { ddy };
            let adx: i32 = if sdx < 0 { -sdx } else { sdx };
            let ady: i32 = if sdy < 0 { -sdy } else { sdy };
            proof {
                assert(sdx as int == wi16(tx - cx) as int);
                assert(sdy as int == wi16(ty - cy) as int);
            }
            adx > 12288 || ady > 12288
        },
    }
}

impl World {
    /// Does scout candidate `k` of rival `ri` from carpet `i` clear
    /// every foreign castle of the tick-top chain (see [`site_clear`])?
    pub open spec fn scout_ok(&self, ri: int, i: int, k: int) -> bool {
        let p = self.g.ent[i];
        let t = scout_cand(p.x, p.y, k);
        site_clear(near_castle(self.g.ent@, self.wiz_chain@, self.rivals[ri].ent, t.0, t.1, self.wiz_chain.len() as int), t.0, t.1)
    }

    /// The foreign castle nearest (tx, ty) on the tick-top chain (see
    /// [`near_castle`]).
    fn scout_nearest(&self, me: u16, tx: u16, ty: u16) -> (r: Option<(u16, u16, i64)>)
        requires
            forall|q: int| 0 <= q < self.wiz_chain.len() ==> (#[trigger] self.wiz_chain[q] as int) < self.g.ent.len(),
        ensures
            match r {
                Some(p) => near_castle(self.g.ent@, self.wiz_chain@, me, tx, ty, self.wiz_chain.len() as int) == Some((p.0, p.1, p.2 as int)),
                None => near_castle(self.g.ent@, self.wiz_chain@, me, tx, ty, self.wiz_chain.len() as int).is_none(),
            },
    {
        let mut best: Option<(u16, u16, i64)> = None;
        let mut c: usize = 0;
        while c < self.wiz_chain.len()
            invariant
                c <= self.wiz_chain.len(),
                forall|q: int| 0 <= q < self.wiz_chain.len() ==> (#[trigger] self.wiz_chain[q] as int) < self.g.ent.len(),
                match best {
                    Some(p) => near_castle(self.g.ent@, self.wiz_chain@, me, tx, ty, c as int) == Some((p.0, p.1, p.2 as int)),
                    None => near_castle(self.g.ent@, self.wiz_chain@, me, tx, ty, c as int).is_none(),
                },
            decreases self.wiz_chain.len() - c,
        {
            let e = self.g.ent[self.wiz_chain[c] as usize];
            if e.model65 == 2 && e.id24 != me {
                let d = Gen::dist2_sq(tx, ty, e.x, e.y);
                let better = match best {
                    Some(p) => d < p.2,
                    None => true,
                };
                if better {
                    best = Some((e.x, e.y, d));
                }
            }
            c = c + 1;
        }
        best
    }

    /// One scout probe: candidate `k` from carpet `i` (supercell
    /// `cx0`, `cy0`) written into the scratch record 0, and whether it
    /// clears every foreign castle.
    #[verifier::spinoff_prover]
    fn scout_probe(&mut self, ri: usize, i: usize, cx0: i32, cy0: i32, k: usize) -> (r: (bool, u16, u16))
        requires
            ri < old(self).rivals.len(),
            1 <= i < old(self).g.ent.len(),
            k < 32,
            cx0 as int == supercell(old(self).g.ent[i as int].x),
            cy0 as int == supercell(old(self).g.ent[i as int].y),
            -2 <= cx0 <= 1,
            -2 <= cy0 <= 1,
            forall|q: int| 0 <= q < old(self).wiz_chain.len() ==> 1 <= (#[trigger] old(self).wiz_chain[q] as int) < old(self).g.ent.len(),
        ensures
            (r.1, r.2) == scout_cand(old(self).g.ent[i as int].x, old(self).g.ent[i as int].y, k as int),
            r.0 == old(self).scout_ok(ri as int, i as int, k as int),
            final(self).g.ent@ == old(self).g.ent@.update(0, (Ent { x: r.1, y: r.2, ..old(self).g.ent[0] })),
            final(self).g == (Gen { ent: final(self).g.ent, ..old(self).g }),
            *final(self) == (World { g: final(self).g, ..*old(self) }),
    {
        let me = self.rivals[ri].ent;
        let (tx, ty) = scout_cand_at(Ghost(old(self).g.ent[i as int].x), Ghost(old(self).g.ent[i as int].y), cx0, cy0, k);
        self.g.ent[0].x = tx;
        self.g.ent[0].y = ty;
        proof {
            let o = old(self);
            assert forall|q: int| 0 <= q < o.wiz_chain.len() implies self.g.ent@[#[trigger] o.wiz_chain[q] as int] == o.g.ent@[o.wiz_chain[q] as int] by {
            }
            lemma_near_castle_frame(self.g.ent@, o.g.ent@, o.wiz_chain@, me, tx, ty, o.wiz_chain.len() as int);
        }
        let near = self.scout_nearest(me, tx, ty);
        let ok = site_clear_at(near, tx, ty);
        (ok, tx, ty)
    }

    /// Castle-site scout of rival `ri` from carpet `i`: the candidates
    /// (see [`scout_cand`]) are probed in order through the scratch
    /// record 0 (each probe writes its x, y there); the first clear of
    /// every foreign castle (see [`Self::scout_ok`]) becomes the rival's
    /// site and the carpet's destination, its site height the scratch
    /// record's z. With none clear nothing is chosen and the scratch
    /// keeps the last candidate.
    #[verifier::spinoff_prover]
    #[verifier::rlimit(40)]
    pub fn rival_scout_site(&mut self, ri: usize, i: usize) -> (found: bool)
        requires
            ri < old(self).rivals.len(),
            1 <= i < old(self).g.ent.len(),
            forall|q: int| 0 <= q < old(self).wiz_chain.len() ==> 1 <= (#[trigger] old(self).wiz_chain[q] as int) < old(self).g.ent.len(),
        ensures
            ({
                let o = old(self);
                let p = o.g.ent[i as int];
                let z0 = o.g.ent[0];
                if exists|k: int| 0 <= k < 32 && o.scout_ok(ri as int, i as int, k) {
                    exists|k: int| 0 <= k < 32 && o.scout_ok(ri as int, i as int, k)
                        && (forall|q: int| 0 <= q < k ==> !#[trigger] o.scout_ok(ri as int, i as int, q))
                        && {
                            let t = scout_cand(p.x, p.y, k);
                            &&& found
                            &&& final(self).rivals@ == o.rivals@.update(ri as int, (Rival { site: t, ..o.rivals[ri as int] }))
                            &&& final(self).g.ent@ == o.g.ent@.update(0, (Ent { x: t.0, y: t.1, ..z0 })).update(
                                i as int,
                                (Ent { dest_x: t.0, dest_y: t.1, site_z: z0.z, ..p }),
                            )
                        }
                } else {
                    let t = scout_cand(p.x, p.y, 31);
                    &&& !found
                    &&& final(self).rivals == o.rivals
                    &&& final(self).g.ent@ == o.g.ent@.update(0, (Ent { x: t.0, y: t.1, ..z0 }))
                }
            }),
            final(self).g == (Gen { ent: final(self).g.ent, ..old(self).g }),
            *final(self) == (World { g: final(self).g, rivals: final(self).rivals, ..*old(self) }),
    {
        let sx = self.g.ent[i].x;
        let sy = self.g.ent[i].y;
        let six: i32 = if sx >= 0x8000 { sx as i32 - 0x10000 } else { sx as i32 };
        let siy: i32 = if sy >= 0x8000 { sy as i32 - 0x10000 } else { sy as i32 };
        let cx0: i32 = six / 16384;
        let cy0: i32 = siy / 16384;
        proof {
            assert(cx0 as int == supercell(sx));
            assert(cy0 as int == supercell(sy));
        }
        let ghost o = *self;
        let mut k: usize = 0;
        while k < 32
            invariant
                k <= 32,
                o == *old(self),
                sx == o.g.ent[i as int].x,
                sy == o.g.ent[i as int].y,
                cx0 as int == supercell(sx),
                cy0 as int == supercell(sy),
                -2 <= cx0 <= 1,
                -2 <= cy0 <= 1,
                1 <= i < o.g.ent.len(),
                ri < o.rivals.len(),
                forall|q: int| 0 <= q < o.wiz_chain.len() ==> 1 <= (#[trigger] o.wiz_chain[q] as int) < o.g.ent.len(),
                forall|q: int| 0 <= q < k ==> !#[trigger] o.scout_ok(ri as int, i as int, q),
                k == 0 ==> *self == o,
                k > 0 ==> self.g.ent@ == o.g.ent@.update(0, (Ent {
                    x: scout_cand(sx, sy, k - 1).0,
                    y: scout_cand(sx, sy, k - 1).1,
                    ..o.g.ent[0]
                })),
                k > 0 ==> self.g == (Gen { ent: self.g.ent, ..o.g }),
                k > 0 ==> *self == (World { g: self.g, ..o }),
            decreases 32 - k,
        {
            let ghost cur = *self;
            proof {
                assert(cur.g.ent[i as int] == o.g.ent[i as int]);
                World::lemma_scout_ok_frame(o, cur, ri as int, i as int, k as int);
            }
            let (ok, tx, ty) = self.scout_probe(ri, i, cx0, cy0, k);
            if ok {
                let sz = self.g.ent[0].z;
                self.rivals[ri].site = (tx, ty);
                self.g.ent[i].dest_x = tx;
                self.g.ent[i].dest_y = ty;
                self.g.ent[i].site_z = sz;
                proof {
                    let t = scout_cand(sx, sy, k as int);
                    assert(self.rivals@ =~= o.rivals@.update(ri as int, (Rival { site: t, ..o.rivals[ri as int] })));
                    assert(self.g.ent@ =~= o.g.ent@.update(0, (Ent { x: t.0, y: t.1, ..o.g.ent[0] })).update(
                        i as int,
                        (Ent { dest_x: t.0, dest_y: t.1, site_z: o.g.ent[0].z, ..o.g.ent[i as int] }),
                    ));
                }
                return true;
            }
            proof {
                assert(self.g.ent@ =~= o.g.ent@.update(0, (Ent {
                    x: scout_cand(sx, sy, k as int).0,
                    y: scout_cand(sx, sy, k as int).1,
                    ..o.g.ent[0]
                })));
            }
            k = k + 1;
        }
        false
    }

    /// Moving record 0 does not change whether a candidate is clear: `a` and
    /// `b` differ at most in record 0.
    proof fn lemma_scout_ok_frame(a: World, b: World, ri: int, i: int, k: int)
        requires
            1 <= i < a.g.ent.len(),
            b.g.ent.len() == a.g.ent.len(),
            b.wiz_chain == a.wiz_chain,
            b.rivals == a.rivals,
            forall|q: int| 1 <= q < a.g.ent.len() ==> #[trigger] b.g.ent[q] == a.g.ent[q],
            forall|q: int| 0 <= q < a.wiz_chain.len() ==> 1 <= (#[trigger] a.wiz_chain[q] as int) < a.g.ent.len(),
        ensures
            b.scout_ok(ri, i, k) == a.scout_ok(ri, i, k),
    {
        let p = a.g.ent[i];
        let t = scout_cand(p.x, p.y, k);
        assert forall|q: int| 0 <= q < a.wiz_chain.len() implies b.g.ent@[#[trigger] a.wiz_chain[q] as int] == a.g.ent@[a.wiz_chain[q] as int] by {
        }
        lemma_near_castle_frame(b.g.ent@, a.g.ent@, a.wiz_chain@, a.rivals[ri].ent, t.0, t.1, a.wiz_chain.len() as int);
    }
}


/// The guard of a neutral ball at (bx, by) tagged `bid`, over the
/// first `k` chain records: starting from `init` (the human's squared
/// distance when he stands), the nearest foreign carpet (model ≤ 1,
/// not `me`, not the ball's own tag) by squared distance.
pub open spec fn guard_fold(ents: Seq<Ent>, chain: Seq<u16>, me: u16, bid: u16, bx: u16, by: u16, init: Option<int>, k: int) -> Option<int>
    decreases k,
{
    if k <= 0 {
        init
    } else {
        let prev = guard_fold(ents, chain, me, bid, bx, by, init, k - 1);
        let we = ents[chain[k - 1] as int];
        let d = dist2_spec(bx, by, we.x, we.y);
        if we.id24 != bid && we.model65 <= 1 && we.id24 != me && (prev is None || d < prev->0) {
            Some(d)
        } else {
            prev
        }
    }
}

/// The castle nearest a ball at (bx, by) tagged `bid` over the first
/// `k` chain records (model 2, not the ball's tag, and — for a bound
/// register `reg` — not the register castle's owner), with its squared
/// distance; the earliest among equals.
pub open spec fn ball_castle_fold(ents: Seq<Ent>, chain: Seq<u16>, bid: u16, reg: int, reg_id: u16, bx: u16, by: u16, k: int) -> Option<(int, int)>
    decreases k,
{
    if k <= 0 {
        None
    } else {
        let prev = ball_castle_fold(ents, chain, bid, reg, reg_id, bx, by, k - 1);
        let we = ents[chain[k - 1] as int];
        let d = dist2_spec(bx, by, we.x, we.y);
        if we.id24 != bid && we.model65 == 2 && (reg == 0 || we.id24 != reg_id) && (prev is None || d < (prev->0).1) {
            Some((chain[k - 1] as int, d))
        } else {
            prev
        }
    }
}

impl World {
    /// The facts the ball pick of rival `ri` from carpet `i` leans on.
    pub open spec fn ball_ok(&self, ri: int, i: int) -> bool {
        &&& self.raid_world_ok(ri)
        &&& self.regs_ok()
        &&& 0 <= i < self.g.ent.len()
        &&& forall|c: int| 0 <= c < self.ball_chain.len() ==> (#[trigger] self.ball_chain[c] as int) < self.g.ent.len()
    }

    /// The score of the ball chain's `c`-th ball for rival `ri` from
    /// carpet `i`: a ball whose tag names no wizard (not the human, not
    /// a class-3 record) scores its squared distance from the carpet;
    /// the rival's own ball is skipped; a ball of a wizard the rival
    /// hates (see [`Self::hate_over_spec`]) scores its distance from the
    /// rival's castle register record; any other wizard's ball scores
    /// from the carpet only when unguarded (its nearest guard — the
    /// standing human or a foreign carpet, see [`guard_fold`] — more
    /// than 5120 away) and not housed (not over its nearest castle, see
    /// [`ball_castle_fold`]).
    pub open spec fn ball_score(&self, ri: int, i: int, c: int) -> Option<int> {
        let me = self.rivals[ri].ent;
        let p = self.g.ent[i];
        let j = self.ball_chain[c] as int;
        let e = self.g.ent[j];
        let tag = e.f144;
        let reg = self.castle_reg[self.rivals[ri].slot as int] as int;
        let rg = self.g.ent[reg];
        let wiz = tag == PLAYER_TARGET || ((tag as int) < self.g.ent.len() && self.g.ent[tag as int].class64 == 3);
        if !wiz {
            Some(dist2_spec(p.x, p.y, e.x, e.y))
        } else if tag == me {
            None
        } else if self.owner_slot_w_spec(tag) is Some && self.hate_over_spec(ri, self.owner_slot_w_spec(tag)->0, self.wealth_spec(self.owner_slot_w_spec(tag)->0)) {
            Some(dist2_spec(rg.x, rg.y, e.x, e.y))
        } else {
            let init = match self.wizard_pos_spec(0) {
                Some(h) => Some(dist2_spec(e.x, e.y, h.0, h.1)),
                None => None,
            };
            let g = guard_fold(self.g.ent@, self.wiz_chain@, me, e.id24, e.x, e.y, init, self.wiz_chain.len() as int);
            let cs = ball_castle_fold(self.g.ent@, self.wiz_chain@, e.id24, reg, rg.id24, e.x, e.y, self.wiz_chain.len() as int);
            let unguarded = g is Some && g->0 > 5120 * 5120;
            let housed = cs is Some && self.g.overlap_spec(j, (cs->0).0);
            if unguarded && !housed { Some(dist2_spec(p.x, p.y, e.x, e.y)) } else { None }
        }
    }

    /// Is ball chain position `c` the winner: scored, the lowest score,
    /// the earliest among equals?
    pub open spec fn is_best_ball(&self, ri: int, i: int, c: int) -> bool {
        &&& 0 <= c < self.ball_chain.len()
        &&& self.ball_score(ri, i, c) is Some
        &&& forall|q: int| 0 <= q < self.ball_chain.len() && self.ball_score(ri, i, q) is Some
            ==> self.ball_score(ri, i, c)->0 <= #[trigger] self.ball_score(ri, i, q)->0
        &&& forall|q: int| 0 <= q < c && self.ball_score(ri, i, q) is Some
            ==> self.ball_score(ri, i, c)->0 < #[trigger] self.ball_score(ri, i, q)->0
    }

    /// The guard and nearest castle of a neutral ball (see
    /// [`guard_fold`], [`ball_castle_fold`]).
    fn ball_guard_castle(&self, me: u16, bid: u16, bx: u16, by: u16, init: Option<i64>, reg: usize, reg_id: u16)
        -> (r: (Option<i64>, Option<(usize, i64)>))
        requires
            forall|q: int| 0 <= q < self.wiz_chain.len() ==> (#[trigger] self.wiz_chain[q] as int) < self.g.ent.len(),
            init matches Some(v) ==> 0 <= v <= 0x8000_0000,
        ensures
            ({
                let i0 = match init {
                    Some(v) => Some(v as int),
                    None => None,
                };
                let n = self.wiz_chain.len() as int;
                &&& (match r.0 {
                    Some(v) => guard_fold(self.g.ent@, self.wiz_chain@, me, bid, bx, by, i0, n) == Some(v as int),
                    None => guard_fold(self.g.ent@, self.wiz_chain@, me, bid, bx, by, i0, n) is None,
                })
                &&& (match r.1 {
                    Some(p) => ball_castle_fold(self.g.ent@, self.wiz_chain@, bid, reg as int, reg_id, bx, by, n) == Some((p.0 as int, p.1 as int)),
                    None => ball_castle_fold(self.g.ent@, self.wiz_chain@, bid, reg as int, reg_id, bx, by, n) is None,
                })
                &&& (r.1 matches Some(p) ==> p.0 < self.g.ent.len())
            }),
    {
        let ghost i0 = match init {
            Some(v) => Some(v as int),
            None => None,
        };
        let mut guard = init;
        let mut castle: Option<(usize, i64)> = None;
        let mut k: usize = 0;
        while k < self.wiz_chain.len()
            invariant
                k <= self.wiz_chain.len(),
                forall|q: int| 0 <= q < self.wiz_chain.len() ==> (#[trigger] self.wiz_chain[q] as int) < self.g.ent.len(),
                match guard {
                    Some(v) => guard_fold(self.g.ent@, self.wiz_chain@, me, bid, bx, by, i0, k as int) == Some(v as int),
                    None => guard_fold(self.g.ent@, self.wiz_chain@, me, bid, bx, by, i0, k as int) is None,
                },
                match castle {
                    Some(p) => ball_castle_fold(self.g.ent@, self.wiz_chain@, bid, reg as int, reg_id, bx, by, k as int) == Some((p.0 as int, p.1 as int))
                        && p.0 < self.g.ent.len(),
                    None => ball_castle_fold(self.g.ent@, self.wiz_chain@, bid, reg as int, reg_id, bx, by, k as int) is None,
                },
            decreases self.wiz_chain.len() - k,
        {
            let w = self.wiz_chain[k] as usize;
            let we = self.g.ent[w];
            if we.id24 != bid {
                let d = Gen::dist2_sq(bx, by, we.x, we.y);
                let closer = match guard {
                    Some(gd) => d < gd,
                    None => true,
                };
                if we.model65 <= 1 && we.id24 != me && closer {
                    guard = Some(d);
                }
                let nearer = match castle {
                    Some((_, cd)) => d < cd,
                    None => true,
                };
                if we.model65 == 2 && (reg == 0 || we.id24 != reg_id) && nearer {
                    castle = Some((w, d));
                }
            }
            k = k + 1;
        }
        (guard, castle)
    }

    /// The score of ball chain position `c` (see [`Self::ball_score`]).
    #[verifier::spinoff_prover]
    #[verifier::rlimit(40)]
    fn ball_score_at(&self, ri: usize, i: usize, c: usize) -> (r: Option<i64>)
        requires
            self.ball_ok(ri as int, i as int),
            c < self.ball_chain.len(),
        ensures
            match r {
                Some(v) => self.ball_score(ri as int, i as int, c as int) == Some(v as int),
                None => self.ball_score(ri as int, i as int, c as int) is None,
            },
    {
        let me = self.rivals[ri].ent;
        let px = self.g.ent[i].x;
        let py = self.g.ent[i].y;
        let j = self.ball_chain[c] as usize;
        let e = self.g.ent[j];
        let tag = e.f144;
        let reg = self.castle_reg[self.rivals[ri].slot as usize] as usize;
        let rg = self.g.ent[reg];
        let wiz = tag == PLAYER_TARGET || ((tag as usize) < self.g.ent.len() && self.g.ent[tag as usize].class64 == 3);
        if !wiz {
            return Some(Gen::dist2_sq(px, py, e.x, e.y));
        }
        if tag == me {
            return None;
        }
        match self.rival_owner_slot(tag) {
            Some(o) => {
                let wealth = self.wizard_wealth(o);
                if self.hate_over(ri, o, wealth) {
                    return Some(Gen::dist2_sq(rg.x, rg.y, e.x, e.y));
                }
            },
            None => {},
        }
        let init = match self.wizard_pos(0) {
            Some((hx, hy, _)) => Some(Gen::dist2_sq(e.x, e.y, hx, hy)),
            None => None,
        };
        let (guard, castle) = self.ball_guard_castle(me, e.id24, e.x, e.y, init, reg, rg.id24);
        let unguarded = match guard {
            Some(gd) => gd > 5120 * 5120,
            None => false,
        };
        let housed = match castle {
            Some((cs, _)) => self.g.ent_overlap(j, cs),
            None => false,
        };
        if unguarded && !housed {
            Some(Gen::dist2_sq(px, py, e.x, e.y))
        } else {
            None
        }
    }

    /// Mana-ball pick of rival `ri` from carpet `i`: every ball of the
    /// tick-top ball chain is scored (see [`Self::ball_score`]) and the
    /// lowest score, the earliest among equals, is claimed (`Possess`),
    /// with no range cap. No scored ball changes nothing.
    #[verifier::spinoff_prover]
    #[verifier::rlimit(60)]
    pub fn rival_pick_ball_target(&mut self, ri: usize, i: usize) -> (picked: bool)
        requires
            old(self).ball_ok(ri as int, i as int),
        ensures
            ({
                let o = old(self);
                if exists|c: int| 0 <= c < o.ball_chain.len() && o.ball_score(ri as int, i as int, c) is Some {
                    exists|c: int| o.is_best_ball(ri as int, i as int, c)
                        && picked && stated(o, final(self), ri as int, AiState::Possess, o.ball_chain[c])
                } else {
                    !picked && *final(self) == *old(self)
                }
            }),
    {
        let n = self.ball_chain.len();
        let mut best: Option<(u16, i64)> = None;
        let ghost mut bk: int = 0;
        let mut c: usize = 0;
        while c < n
            invariant
                n == self.ball_chain.len(),
                c <= n,
                *self == *old(self),
                self.ball_ok(ri as int, i as int),
                match best {
                    None => forall|q: int| 0 <= q < c ==> #[trigger] self.ball_score(ri as int, i as int, q) is None,
                    Some((t, d)) => {
                        &&& 0 <= bk < c
                        &&& self.ball_score(ri as int, i as int, bk) == Some(d as int)
                        &&& t == self.ball_chain[bk]
                        &&& forall|q: int| 0 <= q < c && self.ball_score(ri as int, i as int, q) is Some
                            ==> d <= #[trigger] self.ball_score(ri as int, i as int, q)->0
                        &&& forall|q: int| 0 <= q < bk && self.ball_score(ri as int, i as int, q) is Some
                            ==> d < #[trigger] self.ball_score(ri as int, i as int, q)->0
                    },
                },
            decreases n - c,
        {
            match self.ball_score_at(ri, i, c) {
                Some(d) => {
                    let better = match best {
                        None => true,
                        Some((_, bd)) => d < bd,
                    };
                    if better {
                        best = Some((self.ball_chain[c], d));
                        proof {
                            bk = c as int;
                        }
                    }
                },
                None => {},
            }
            c = c + 1;
        }
        match best {
            Some((t, _)) => {
                proof {
                    assert(self.is_best_ball(ri as int, i as int, bk));
                }
                self.set_rival_state(ri, AiState::Possess, t);
                true
            },
            None => false,
        }
    }
}

} // verus!
