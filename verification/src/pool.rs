//! The shared entity chassis: the fixed-capacity entity pool, the
//! terrain planes, the per-level feature assets, the per-entity LCG,
//! the sound queue and the fixed-point geometry (bearing, polar step,
//! integer square root) every column runs on.

use vstd::prelude::*;

verus! {

/// The owner tag / target slot that names the human wizard, who lives
/// outside the pool.
pub const PLAYER_TARGET: u16 = 0xFFFF;

/// Number of pool records (slot 0 is the reserved null record).
pub const POOL_SIZE: usize = 1000;

/// The entity flags bit that marks a record as reaped (disabled).
pub const F_REAPED: u32 = 0x400;

/// `v` wrapped onto the 16-bit unsigned range.
pub open spec fn w16(v: int) -> u16 {
    (v % 0x10000) as u16
}

/// `v` wrapped onto the 16-bit signed range.
pub open spec fn wi16(v: int) -> i16 {
    ((v + 0x8000) % 0x10000 - 0x8000) as i16
}

/// `v` wrapped onto the 8-bit unsigned range.
pub open spec fn w8(v: int) -> u8 {
    (v % 0x100) as u8
}

/// One pool record. Field names follow the record offsets they stand
/// for (`f26` = the word at +26 of the retail layout, and so on).
#[derive(Clone, Copy)]
pub struct Ent {
    pub class64: u8,
    pub model65: u8,
    pub tick70: u8,
    pub id24: u16,
    pub flags: u32,
    pub x: u16,
    pub y: u16,
    pub z: i16,
    pub site_z: i16,
    pub dest_x: u16,
    pub dest_y: u16,
    pub max_life: u32,
    pub act_life: i32,
    pub rand: u32,
    pub row156: u8,
    pub type86: u16,
    pub frame88: u16,
    pub f26: i16,
    pub f28: u16,
    pub f30: u16,
    pub pitch32: u16,
    pub f34: u16,
    pub f36: u16,
    pub f38: u16,
    pub f40: u16,
    pub f44: u16,
    pub f46: i16,
    pub f50: u16,
    pub f52: u16,
    pub f54: u16,
    pub f56: u8,
    pub f58: u8,
    pub f59: u8,
    pub f63: u8,
    pub f66: u8,
    pub f67: u8,
    pub f68: u8,
    pub f69: u8,
    pub f71: u8,
    pub f78: u16,
    pub f80: u16,
    pub f82: u16,
    pub f84: u16,
    pub f126: i16,
    pub speed128: i16,
    pub f136: i32,
    pub f140: i32,
    pub f144: u16,
    pub f146: u16,
    /// The six mail channels: (amount, source); a zero source is an
    /// empty letter.
    pub mail: [(u32, u16); 6],
}

/// One BUILD00 row: offset into the cell data, footprint width and
/// height in tiles.
#[derive(Clone, Copy)]
pub struct BuildDef {
    pub offset: u32,
    pub w: u8,
    pub h: u8,
}

/// One tier of a SPELLS row.
#[derive(Clone, Copy)]
pub struct SubSpell {
    pub mana_cost: i32,
    pub hint_text: i16,
    pub sub_spell: i32,
    pub word_0x18: i32,
    pub font_type: u8,
    pub max_mana_limit: i32,
    pub xpos1: i32,
    pub life: i8,
}

/// One SPELLS row: the tier count and the three tiers.
#[derive(Clone, Copy)]
pub struct SpellRow {
    pub byte_0: u8,
    pub tiers: [SubSpell; 3],
}

/// The level's terrain planes, one byte per tile of the 256×256 map.
/// An empty ceiling plane marks a surface (non-cave) level.
pub struct Planes {
    pub height: Vec<u8>,
    pub tile_type: Vec<u8>,
    pub angle: Vec<u8>,
    pub ceiling: Vec<u8>,
}

/// The per-level feature assets.
pub struct FeatureAssets {
    pub build_tab: Vec<BuildDef>,
    pub build_dat: Vec<u8>,
    pub spells: Vec<SpellRow>,
    /// The derived (speed_6, rot_speed_8) sprite-param pairs by row.
    pub mc2_sprite_ext: Vec<(u16, u16)>,
    /// The MC2 creature behavior rows (absolute row index).
    pub behavior: Vec<BehaviorRow>,
    /// The auto-flatten terrain types: entry t set = tile type t is
    /// flattened under a building pad.
    pub auto_flat: Vec<bool>,
    /// The per-building parameter flags by building row (bit 2 = no
    /// cave-ceiling raise over the footprint).
    pub bldg_flags: Vec<u8>,
}

/// The altitude columns of one behavior row: hover height above
/// ground and the per-tick vertical step.
#[derive(Clone, Copy)]
pub struct BehaviorRow {
    pub v_12: i16,
    pub v_14: i16,
}

/// The behavior switches a world runs with: `false` everywhere is the
/// retail behavior.
#[derive(Clone, Copy)]
pub struct WorldPatches {
    pub mc2_downgrade_overflow: bool,
    pub castle_recast_cost: bool,
}

impl WorldPatches {
    /// Every switch off: the retail behavior.
    pub fn retail() -> (p: WorldPatches)
        ensures
            !p.mc2_downgrade_overflow,
            !p.castle_recast_cost,
    {
        WorldPatches { mc2_downgrade_overflow: false, castle_recast_cost: false }
    }
}

/// The simulation chassis.
pub struct Gen {
    pub ent: Vec<Ent>,
    /// Free pool slots; the allocator pops from the end.
    pub free: Vec<usize>,
    pub t: Planes,
    pub assets: FeatureAssets,
    /// The player-side "castle under attack" HUD latch.
    pub castle_alert: u8,
    /// The player-side "balloon under attack" HUD latch.
    pub balloon_alert: u8,
    /// Wizard entity slot per player slot (0 = none / the human).
    pub rival_ents: [u16; 8],
    /// The castle Life personality scalar per player slot (16.8).
    pub mc2_life_scale: [i32; 8],
    /// Castle research per owner: (owner, HP factor per stage,
    /// part-type per stage).
    pub mc2_castle_research: Vec<(u16, [u8; 7], [u8; 7])>,
    /// Pending spell-XP mail: (owner, spell, amount).
    pub mc2_cast_xp: Vec<(u16, u8, i32)>,
    /// The sound queue: (sound id, emitting slot; PLAYER_TARGET for
    /// sounds at the human).
    pub sounds: Vec<(u8, u16)>,
    pub terrain_dirty: bool,
    /// The in-world spell-token bits (bit s = spell s has a token).
    pub mc2_spell_tokens: u32,
    /// The precise-rebound law bit of the live Rebound cast.
    pub mc2_rebound_precise: i32,
    /// Tile rectangles queued for a retile after a building write.
    pub building_regions: Vec<(u8, u8, u8, u8)>,
    /// Texture-band paints queued for the terrain painter: (column
    /// counter, tile x, tile y, paint code).
    pub paints: Vec<(u8, u8, u8, u8)>,
}

/// The map tile index of tile (gx, gy).
pub open spec fn tile_spec(gx: u8, gy: u8) -> int {
    gy as int * 256 + gx as int
}

/// The map tile index of tile (gx, gy).
pub fn tile(gx: u8, gy: u8) -> (t: usize)
    ensures
        t == tile_spec(gx, gy),
        t < 0x10000,
{
    (gy as usize) * 256 + gx as usize
}

/// The tile under world position (x, y).
pub open spec fn tile_at_spec(x: u16, y: u16) -> int {
    tile_spec((x / 256) as u8, (y / 256) as u8)
}

/// A record as the allocator hands it out: the allocator's defaults
/// (life 300, flags 8, speed 16, strength 100, id = slot, filter
/// bytes −1, seed = slot) on an otherwise zero record.
pub open spec fn fresh_ent(i: int) -> Ent {
    Ent {
        class64: 0,
        model65: 0,
        tick70: 0,
        id24: i as u16,
        flags: 8,
        x: 0,
        y: 0,
        z: 0,
        site_z: 0,
        dest_x: 0,
        dest_y: 0,
        max_life: 300,
        act_life: 300,
        rand: i as u32,
        row156: 0,
        type86: 0,
        frame88: 0,
        f26: 0,
        f28: 0,
        f30: 0,
        pitch32: 0,
        f34: 0,
        f36: 0,
        f38: 0,
        f40: 0,
        f44: 100,
        f46: 0,
        f50: 0,
        f52: 0,
        f54: 0,
        f56: 0,
        f58: 0,
        f59: 0,
        f63: 0,
        f66: 0xFF,
        f67: 0xFF,
        f68: 10,
        f69: 0,
        f71: 0,
        f78: 0,
        f80: 0,
        f82: 0,
        f84: 0,
        f126: 16,
        speed128: 16,
        f136: 0,
        f140: 0,
        f144: 0,
        f146: 0,
        mail: [(0u32, 0u16), (0, 0), (0, 0), (0, 0), (0, 0), (0, 0)],
    }
}

/// Builds the allocator's default record for slot `i`.
pub fn fresh(i: usize) -> (e: Ent)
    requires
        i < 0x10000,
    ensures
        e == fresh_ent(i as int),
{
    Ent {
        class64: 0,
        model65: 0,
        tick70: 0,
        id24: i as u16,
        flags: 8,
        x: 0,
        y: 0,
        z: 0,
        site_z: 0,
        dest_x: 0,
        dest_y: 0,
        max_life: 300,
        act_life: 300,
        rand: i as u32,
        row156: 0,
        type86: 0,
        frame88: 0,
        f26: 0,
        f28: 0,
        f30: 0,
        pitch32: 0,
        f34: 0,
        f36: 0,
        f38: 0,
        f40: 0,
        f44: 100,
        f46: 0,
        f50: 0,
        f52: 0,
        f54: 0,
        f56: 0,
        f58: 0,
        f59: 0,
        f63: 0,
        f66: 0xFF,
        f67: 0xFF,
        f68: 10,
        f69: 0,
        f71: 0,
        f78: 0,
        f80: 0,
        f82: 0,
        f84: 0,
        f126: 16,
        speed128: 16,
        f136: 0,
        f140: 0,
        f144: 0,
        f146: 0,
        mail: [(0u32, 0u16), (0, 0), (0, 0), (0, 0), (0, 0), (0, 0)],
    }
}

/// The next value of the per-entity 16-bit LCG.
pub open spec fn lcg_next(r: u32) -> u32 {
    ((9377 * (r as int) + 9439) % 0x10000) as u32
}

/// The quarter-wave sine table (65536 · sin(k·π/64), k = 0..=32).
pub const SIN_Q: [i32; 33] = [
    0, 3216, 6424, 9616, 12785, 15924, 19024, 22078, 25080, 28020, 30893, 33692, 36410, 39040,
    41576, 44011, 46341, 48559, 50660, 52639, 54491, 56212, 57798, 59244, 60547, 61705, 62714,
    63572, 64277, 64827, 65220, 65457, 65536,
];

/// Quarter-wave sine for q in 0..=512 (512 = a right angle), linear
/// between the table points.
pub open spec fn sin_quarter_spec(q: int) -> int {
    if q >= 512 {
        SIN_Q@[32] as int
    } else {
        let k = q / 16;
        let r = q % 16;
        SIN_Q@[k] + (SIN_Q@[k + 1] - SIN_Q@[k]) * r / 16
    }
}

/// Sine of a 2048-unit angle, scaled by 65536.
pub open spec fn sin_spec(a: int) -> int {
    let m = a % 2048;
    if m < 512 {
        sin_quarter_spec(m)
    } else if m < 1024 {
        sin_quarter_spec(1024 - m)
    } else if m < 1536 {
        -sin_quarter_spec(m - 1024)
    } else {
        -sin_quarter_spec(2048 - m)
    }
}

/// Cosine of a 2048-unit angle, scaled by 65536.
pub open spec fn cos_spec(a: int) -> int {
    sin_spec(a + 512)
}

proof fn lemma_sin_q_bounds()
    ensures
        forall|k: int| 0 <= k < 33 ==> 0 <= #[trigger] SIN_Q@[k] <= 65536,
        forall|k: int| 0 <= k < 32 ==> SIN_Q@[k] <= #[trigger] SIN_Q@[k + 1],
{
    assert(SIN_Q@ =~= seq![
        0i32, 3216, 6424, 9616, 12785, 15924, 19024, 22078, 25080, 28020, 30893, 33692, 36410, 39040,
        41576, 44011, 46341, 48559, 50660, 52639, 54491, 56212, 57798, 59244, 60547, 61705, 62714,
        63572, 64277, 64827, 65220, 65457, 65536,
    ]);
}

proof fn lemma_sin_quarter_bounds(q: int)
    requires
        0 <= q <= 512,
    ensures
        0 <= sin_quarter_spec(q) <= 65536,
{
    lemma_sin_q_bounds();
    if q < 512 {
        let k = q / 16;
        let r = q % 16;
        assert(0 <= k < 32);
        let lo = SIN_Q@[k] as int;
        let hi = SIN_Q@[k + 1] as int;
        assert(0 <= lo <= hi <= 65536);
        assert(0 <= (hi - lo) * r <= (hi - lo) * 16) by (nonlinear_arith)
            requires
                0 <= r < 16,
                lo <= hi,
        ;
        assert((hi - lo) * r / 16 <= hi - lo) by (nonlinear_arith)
            requires
                0 <= (hi - lo) * r <= (hi - lo) * 16,
        ;
    }
}

proof fn lemma_sin_bounds(a: int)
    ensures
        -65536 <= sin_spec(a) <= 65536,
{
    let m = a % 2048;
    if m < 512 {
        lemma_sin_quarter_bounds(m);
    } else if m < 1024 {
        lemma_sin_quarter_bounds(1024 - m);
    } else if m < 1536 {
        lemma_sin_quarter_bounds(m - 1024);
    } else {
        lemma_sin_quarter_bounds(2048 - m);
    }
}

fn sin_quarter(q: u32) -> (r: i64)
    requires
        q <= 512,
    ensures
        r == sin_quarter_spec(q as int),
        0 <= r <= 65536,
{
    proof {
        lemma_sin_quarter_bounds(q as int);
        lemma_sin_q_bounds();
    }
    if q >= 512 {
        SIN_Q[32] as i64
    } else {
        let k = (q / 16) as usize;
        let r = (q % 16) as i64;
        let lo = SIN_Q[k] as i64;
        let hi = SIN_Q[k + 1] as i64;
        assert(0 <= (hi - lo) * r <= 65536 * 16) by (nonlinear_arith)
            requires
                0 <= r < 16,
                0 <= lo <= hi <= 65536,
        ;
        lo + (hi - lo) * r / 16
    }
}

/// Sine of a 2048-unit angle, scaled by 65536.
pub fn sin_a(a: u32) -> (r: i64)
    ensures
        r == sin_spec(a as int),
        -65536 <= r <= 65536,
{
    proof {
        lemma_sin_bounds(a as int);
    }
    let m = a % 2048;
    if m < 512 {
        sin_quarter(m)
    } else if m < 1024 {
        sin_quarter(1024 - m)
    } else if m < 1536 {
        -sin_quarter(m - 1024)
    } else {
        -sin_quarter(2048 - m)
    }
}

/// Cosine of a 2048-unit angle, scaled by 65536.
pub fn cos_a(a: u32) -> (r: i64)
    requires
        a <= 0x7FFF_FFFF,
    ensures
        r == cos_spec(a as int),
        -65536 <= r <= 65536,
{
    sin_a(a + 512)
}

/// The signed 16-bit torus difference `b - a`.
pub open spec fn wrap_diff(a: u16, b: u16) -> int {
    let d = b as int - a as int;
    if d >= 0x8000 {
        d - 0x10000
    } else if d < -0x8000 {
        d + 0x10000
    } else {
        d
    }
}

/// The signed 16-bit torus difference `b - a`.
pub fn wdiff(a: u16, b: u16) -> (d: i32)
    ensures
        d == wrap_diff(a, b),
        -0x8000 <= d < 0x8000,
{
    let d = b as i32 - a as i32;
    if d >= 0x8000 {
        d - 0x10000
    } else if d < -0x8000 {
        d + 0x10000
    } else {
        d
    }
}

/// Squared planar distance on the torus.
pub open spec fn dist2_spec(x1: u16, y1: u16, x2: u16, y2: u16) -> int {
    wrap_diff(x1, x2) * wrap_diff(x1, x2) + wrap_diff(y1, y2) * wrap_diff(y1, y2)
}

/// The bearing of a planar offset (dx east, dy north-negative) in
/// 2048-unit angles: octant reduction, linear within the octant.
pub open spec fn bearing_spec(dx: int, dy: int) -> int {
    let ax = if dx < 0 { -dx } else { dx };
    let ay = if dy < 0 { -dy } else { dy };
    // angle measured from the -y axis (north), clockwise toward +x.
    let oct = if ax == 0 && ay == 0 {
        0
    } else if ax <= ay {
        ax * 256 / ay
    } else {
        512 - ay * 256 / ax
    };
    // oct is the angle within the quadrant, 0..=512
    if dx >= 0 && dy <= 0 {
        oct
    } else if dx >= 0 && dy > 0 {
        1024 - oct
    } else if dx < 0 && dy > 0 {
        1024 + oct
    } else {
        (2048 - oct) % 2048
    }
}

/// The bearing of a planar offset, in 2048-unit angles.
pub fn bearing(dx: i64, dy: i64) -> (a: u16)
    requires
        -0x1_0000_0000 <= dx <= 0x1_0000_0000,
        -0x1_0000_0000 <= dy <= 0x1_0000_0000,
    ensures
        a == bearing_spec(dx as int, dy as int),
        a < 2048,
{
    let ax: i64 = if dx < 0 { -dx } else { dx };
    let ay: i64 = if dy < 0 { -dy } else { dy };
    let oct: i64 = if ax == 0 && ay == 0 {
        0
    } else if ax <= ay {
        assert((ax as int) * 256 / (ay as int) <= 256 && 0 <= (ax as int) * 256 / (ay as int)) by (nonlinear_arith)
            requires
                0 <= ax <= ay,
                ay > 0,
        ;
        assert(ax * 256 <= 0x1_0000_0000 * 256) by (nonlinear_arith)
            requires
                0 <= ax <= 0x1_0000_0000,
        ;
        ax * 256 / ay
    } else {
        assert((ay as int) * 256 / (ax as int) <= 256 && 0 <= (ay as int) * 256 / (ax as int)) by (nonlinear_arith)
            requires
                0 <= ay < ax,
        ;
        assert(ay * 256 <= 0x1_0000_0000 * 256) by (nonlinear_arith)
            requires
                0 <= ay <= 0x1_0000_0000,
        ;
        512 - ay * 256 / ax
    };
    if dx >= 0 && dy <= 0 {
        oct as u16
    } else if dx >= 0 && dy > 0 {
        (1024 - oct) as u16
    } else if dx < 0 && dy > 0 {
        (1024 + oct) as u16
    } else {
        ((2048 - oct) % 2048) as u16
    }
}

/// Division truncating toward zero (the integer `/` of the chassis).
pub open spec fn tdiv(a: int, b: int) -> int {
    if a >= 0 {
        a / b
    } else {
        -((-a) / b)
    }
}

/// `d · c / 65536`, truncated toward zero, for a distance `d` and a
/// unit-circle coordinate `c`.
fn scale(d: i64, c: i64) -> (r: i64)
    requires
        -0x8000 <= d <= 0x8000,
        -65536 <= c <= 65536,
    ensures
        r == tdiv(d * c, 65536),
        -0x8000 <= r <= 0x8000,
{
    let ad: i64 = if d < 0 { -d } else { d };
    let ac: i64 = if c < 0 { -c } else { c };
    assert(0 <= ad * ac <= 0x8000 * 65536) by (nonlinear_arith)
        requires
            0 <= ad <= 0x8000,
            0 <= ac <= 65536,
    ;
    let p = ad * ac;
    let q = p / 65536;
    assert(q <= 0x8000) by (nonlinear_arith)
        requires
            0 <= p <= 0x8000 * 65536,
            q == p / 65536,
    ;
    let neg = (d < 0) != (c < 0);
    assert(d * c == if neg { -(ad * ac) } else { ad * ac }) by (nonlinear_arith)
        requires
            ad == if d < 0 { -(d as int) } else { d as int },
            ac == if c < 0 { -(c as int) } else { c as int },
            neg == ((d < 0) != (c < 0)),
    ;
    if neg && p > 0 {
        -q
    } else if neg {
        0
    } else {
        q
    }
}

/// Where a polar step of `dist` units along (yaw, pitch) lands from
/// `pos` (the map wraps at 65536 on every axis).
pub open spec fn polar_spec(pos: (u16, u16, i16), yaw: u16, pitch: u16, dist: i16) -> (u16, u16, i16) {
    let flat = tdiv(dist as int * cos_spec(pitch as int), 65536);
    let dx = tdiv(flat * sin_spec(yaw as int), 65536);
    let dy = tdiv(flat * cos_spec(yaw as int), 65536);
    let dz = tdiv(dist as int * sin_spec(pitch as int), 65536);
    (
        ((pos.0 as int + dx + 0x10000) % 0x10000) as u16,
        ((pos.1 as int - dy + 0x10000) % 0x10000) as u16,
        ((pos.2 as int + dz + 0x8000 + 0x10000) % 0x10000 - 0x8000) as i16,
    )
}

/// Smallest r with r·r > n, minus one: the floor square root.
pub open spec fn is_isqrt(n: int, r: int) -> bool {
    0 <= r && r * r <= n && n < (r + 1) * (r + 1)
}


/// The chassis invariant survives a change that keeps the free list,
/// the pool length, every record's class, the planes and the Life
/// scalars.
pub proof fn lemma_wf_same_classes(a: &Gen, b: &Gen)
    requires
        a.wf(),
        b.free@ == a.free@,
        b.ent.len() == a.ent.len(),
        forall|j: int| 0 <= j < a.ent.len() ==> (#[trigger] b.ent[j]).class64 == a.ent[j].class64,
        b.t.height.len() == a.t.height.len(),
        b.t.tile_type.len() == a.t.tile_type.len(),
        b.t.angle.len() == a.t.angle.len(),
        b.t.ceiling.len() == a.t.ceiling.len(),
        b.mc2_life_scale == a.mc2_life_scale,
    ensures
        b.wf(),
{
    assert forall|k: int| 0 <= k < b.free.len() implies b.ent[#[trigger] b.free[k] as int].class64 == 0 by {
        assert(b.free[k] == a.free[k]);
        assert(a.ent[a.free[k] as int].class64 == 0);
        assert(b.ent[a.free[k] as int].class64 == a.ent[a.free[k] as int].class64);
    }
}

impl Gen {
    /// The chassis invariant: a nonempty bounded pool, full-size
    /// planes, free slots inside the pool, each once and each an
    /// empty (class 0) record.
    pub open spec fn wf(&self) -> bool {
        &&& 1 <= self.ent.len() <= 0x8000
        &&& self.t.height.len() == 0x10000
        &&& self.t.tile_type.len() == 0x10000
        &&& self.t.angle.len() == 0x10000
        &&& (self.t.ceiling.len() == 0 || self.t.ceiling.len() == 0x10000)
        &&& forall|k: int|
            0 <= k < self.free.len() ==> 1 <= #[trigger] self.free[k] < self.ent.len()
        &&& self.free@.no_duplicates()
        &&& forall|k: int|
            0 <= k < self.free.len() ==> self.ent[#[trigger] self.free[k] as int].class64 == 0
        &&& forall|k: int| 0 <= k < 8 ==> 0 <= #[trigger] self.mc2_life_scale[k] <= 0x10000
    }

    /// Everything but the pool, the free list and the sound queue is
    /// as in `o`.
    pub open spec fn keeps_world(&self, o: &Gen) -> bool {
        &&& self.t == o.t
        &&& self.assets == o.assets
        &&& self.mc2_castle_research == o.mc2_castle_research
        &&& self.mc2_cast_xp == o.mc2_cast_xp
        &&& self.rival_ents == o.rival_ents
        &&& self.mc2_life_scale == o.mc2_life_scale
        &&& self.castle_alert == o.castle_alert
        &&& self.balloon_alert == o.balloon_alert
        &&& self.terrain_dirty == o.terrain_dirty
        &&& self.building_regions == o.building_regions
        &&& self.mc2_spell_tokens == o.mc2_spell_tokens
        &&& self.mc2_rebound_precise == o.mc2_rebound_precise
        &&& self.paints == o.paints
    }

    /// Everything but the pool, the free list, the sound queue and the
    /// precise-rebound bit is as in `o`.
    pub open spec fn keeps_world_but_rebound(&self, o: &Gen) -> bool {
        &&& self.t == o.t
        &&& self.assets == o.assets
        &&& self.mc2_castle_research == o.mc2_castle_research
        &&& self.mc2_cast_xp == o.mc2_cast_xp
        &&& self.rival_ents == o.rival_ents
        &&& self.mc2_life_scale == o.mc2_life_scale
        &&& self.castle_alert == o.castle_alert
        &&& self.balloon_alert == o.balloon_alert
        &&& self.terrain_dirty == o.terrain_dirty
        &&& self.building_regions == o.building_regions
        &&& self.mc2_spell_tokens == o.mc2_spell_tokens
        &&& self.paints == o.paints
    }

    /// Is `i` a pool record (not the null slot)?
    pub open spec fn slot_ok(&self, i: int) -> bool {
        1 <= i < self.ent.len()
    }

    /// The record fields after the call agree with the ones before on
    /// every slot but the listed ones.
    pub open spec fn same_except(&self, other: &Gen, a: int, b: int) -> bool {
        &&& self.ent.len() == other.ent.len()
        &&& forall|j: int| 0 <= j < self.ent.len() && j != a && j != b ==> self.ent[j] == other.ent[j]
    }

    /// A fresh chassis: `POOL_SIZE` records, all but the null slot free
    /// (handed out in ascending slot order).
    pub fn new(t: Planes, assets: FeatureAssets) -> (g: Gen)
        requires
            t.height.len() == 0x10000,
            t.tile_type.len() == 0x10000,
            t.angle.len() == 0x10000,
            t.ceiling.len() == 0 || t.ceiling.len() == 0x10000,
        ensures
            g.wf(),
            g.ent.len() == POOL_SIZE,
            g.free.len() == POOL_SIZE - 1,
            forall|k: int| 0 <= k < g.free.len() ==> #[trigger] g.free[k] == POOL_SIZE - 1 - k,
            forall|k: int| 0 <= k < POOL_SIZE ==> #[trigger] g.ent[k] == fresh_ent(k),
            g.t == t,
            g.assets == assets,
            g.sounds@.len() == 0,
            g.mc2_castle_research@.len() == 0,
            g.mc2_cast_xp@.len() == 0,
            g.rival_ents@ == seq![0u16, 0, 0, 0, 0, 0, 0, 0],
            g.mc2_life_scale@ == seq![256i32, 256, 256, 256, 256, 256, 256, 256],
    {
        let mut ent: Vec<Ent> = Vec::new();
        let mut k: usize = 0;
        while k < POOL_SIZE
            invariant
                k <= POOL_SIZE,
                ent.len() == k,
                forall|j: int| 0 <= j < k ==> #[trigger] ent[j] == fresh_ent(j),
            decreases POOL_SIZE - k,
        {
            ent.push(fresh(k));
            k = k + 1;
        }
        let mut free: Vec<usize> = Vec::new();
        let mut s: usize = POOL_SIZE - 1;
        while s >= 1
            invariant
                0 <= s <= POOL_SIZE - 1,
                free.len() == POOL_SIZE - 1 - s,
                forall|q: int| 0 <= q < free.len() ==> #[trigger] free[q] == POOL_SIZE - 1 - q,
            decreases s,
        {
            free.push(s);
            s = s - 1;
        }
        Gen {
            ent,
            free,
            t,
            assets,
            castle_alert: 0,
            balloon_alert: 0,
            rival_ents: [0; 8],
            mc2_life_scale: [256; 8],
            mc2_castle_research: Vec::new(),
            mc2_cast_xp: Vec::new(),
            sounds: Vec::new(),
            terrain_dirty: false,
            mc2_spell_tokens: 0,
            mc2_rebound_precise: 0,
            building_regions: Vec::new(),
            paints: Vec::new(),
        }
    }

    /// Is this a cave level (a ceiling plane present)?
    pub fn is_cave(&self) -> (c: bool)
        ensures
            c == (self.t.ceiling.len() > 0),
    {
        self.t.ceiling.len() > 0
    }

    /// The floor height under (x, y) in world z units (tile height ·
    /// 32).
    pub open spec fn ground_spec(&self, x: u16, y: u16) -> int {
        self.t.height[tile_at_spec(x, y)] as int * 32
    }

    /// The floor height under (x, y) in world z units (tile height ·
    /// 32).
    pub fn ground_z(&self, x: u16, y: u16) -> (z: i32)
        requires
            self.wf(),
        ensures
            z == self.ground_spec(x, y),
            0 <= z < 8192,
    {
        let t = tile((x / 256) as u8, (y / 256) as u8);
        self.t.height[t] as i32 * 32
    }

    /// The ceiling height over (x, y) in world z units (the floor on a
    /// surface level).
    pub fn ceiling_z(&self, x: u16, y: u16) -> (z: i32)
        requires
            self.wf(),
        ensures
            0 <= z < 8192,
            self.t.ceiling.len() > 0 ==> z == self.t.ceiling[tile_at_spec(x, y)] as int * 32,
            self.t.ceiling.len() == 0 ==> z == self.ground_spec(x, y),
    {
        let t = tile((x / 256) as u8, (y / 256) as u8);
        if self.t.ceiling.len() > 0 {
            self.t.ceiling[t] as i32 * 32
        } else {
            self.t.height[t] as i32 * 32
        }
    }

    /// Hand out a fresh record (None when the pool is exhausted).
    pub fn new_event(&mut self) -> (r: Option<usize>)
        requires
            old(self).wf(),
        ensures
            final(self).wf(),
            final(self).keeps_world(old(self)),
            final(self).sounds == old(self).sounds,
            match r {
                Some(i) => {
                    &&& old(self).free.len() > 0
                    &&& i == old(self).free@.last()
                    &&& final(self).free@ == old(self).free@.drop_last()
                    &&& final(self).slot_ok(i as int)
                    &&& final(self).ent[i as int] == fresh_ent(i as int)
                    &&& final(self).same_except(old(self), i as int, i as int)
                },
                None => {
                    &&& old(self).free.len() == 0
                    &&& final(self).free@ == old(self).free@
                    &&& final(self).ent == old(self).ent
                },
            },
    {
        match self.free.pop() {
            Some(i) => {
                assert(old(self).free[old(self).free.len() - 1] == i);
                self.ent.set(i, fresh(i));
                Some(i)
            },
            None => None,
        }
    }

    /// Place record `i` at (x, y, z).
    pub fn link(&mut self, i: usize, x: u16, y: u16, z: i16)
        requires
            i < old(self).ent.len(),
        ensures
            final(self).ent@ == old(self).ent@.update(
                i as int,
                (Ent { x, y, z, ..old(self).ent[i as int] }),
            ),
            final(self).free == old(self).free,
            final(self).keeps_world(old(self)),
            final(self).sounds == old(self).sounds,
    {
        self.ent[i].x = x;
        self.ent[i].y = y;
        self.ent[i].z = z;
    }

    /// Move record `i` to (x, y, z) (the relink onto the new tile).
    pub fn move_relink(&mut self, i: usize, x: u16, y: u16, z: i16)
        requires
            i < old(self).ent.len(),
        ensures
            final(self).ent@ == old(self).ent@.update(
                i as int,
                (Ent { x, y, z, ..old(self).ent[i as int] }),
            ),
            final(self).free == old(self).free,
            final(self).keeps_world(old(self)),
            final(self).sounds == old(self).sounds,
    {
        self.link(i, x, y, z);
    }

    /// Fill record `i`'s life to its maximum.
    pub fn refill_life(&mut self, i: usize)
        requires
            i < old(self).ent.len(),
        ensures
            final(self).ent@ == old(self).ent@.update(
                i as int,
                (Ent {
                    act_life: (if old(self).ent[i as int].max_life <= 0x7FFF_FFFF {
                        old(self).ent[i as int].max_life as i32
                    } else {
                        0x7FFF_FFFFi32
                    }),
                    ..old(self).ent[i as int]
                }),
            ),
            final(self).free == old(self).free,
            final(self).keeps_world(old(self)),
            final(self).sounds == old(self).sounds,
    {
        let m = self.ent[i].max_life;
        self.ent[i].act_life = if m <= 0x7FFF_FFFF { m as i32 } else { 0x7FFF_FFFF };
    }

    /// Queue sound `id` at record `i`.
    pub fn snd(&mut self, id: u8, i: usize)
        requires
            i < 0x10000,
        ensures
            final(self).sounds@ == old(self).sounds@.push((id, i as u16)),
            final(self).ent == old(self).ent,
            final(self).free == old(self).free,
            final(self).keeps_world(old(self)),
    {
        self.sounds.push((id, i as u16));
    }

    /// Queue sound `id` at the human wizard.
    pub fn snd_player(&mut self, id: u8)
        ensures
            final(self).sounds@ == old(self).sounds@.push((id, PLAYER_TARGET)),
            final(self).ent == old(self).ent,
            final(self).free == old(self).free,
            final(self).keeps_world(old(self)),
            final(self).free == old(self).free,
    {
        self.sounds.push((id, PLAYER_TARGET));
    }

    /// One draw of record `i`'s 16-bit LCG (`rand = 9377·rand + 9439`):
    /// the new seed is stored and returned.
    pub fn ent_rand(&mut self, i: usize) -> (r: u32)
        requires
            i < old(self).ent.len(),
        ensures
            r == lcg_next(old(self).ent[i as int].rand),
            r < 0x10000,
            final(self).ent@ == old(self).ent@.update(
                i as int,
                (Ent { rand: r, ..old(self).ent[i as int] }),
            ),
            final(self).free == old(self).free,
            final(self).keeps_world(old(self)),
            final(self).sounds == old(self).sounds,
    {
        let r0 = self.ent[i].rand as u64;
        let r = ((9377 * r0 + 9439) % 0x10000) as u32;
        self.ent[i].rand = r;
        r
    }

    /// Squared planar distance on the torus.
    pub fn dist2_sq(x1: u16, y1: u16, x2: u16, y2: u16) -> (d: i64)
        ensures
            d == dist2_spec(x1, y1, x2, y2),
            0 <= d <= 0x8000_0000,
    {
        let dx = wdiff(x1, x2) as i64;
        let dy = wdiff(y1, y2) as i64;
        assert(0 <= dx * dx <= 0x4000_0000 && 0 <= dy * dy <= 0x4000_0000) by (nonlinear_arith)
            requires
                -0x8000 <= dx < 0x8000,
                -0x8000 <= dy < 0x8000,
        ;
        dx * dx + dy * dy
    }

    /// The floor square root.
    pub fn isqrt(n: u32) -> (r: u32)
        ensures
            is_isqrt(n as int, r as int),
            r <= 0x10000,
    {
        let mut lo: u64 = 0;
        let mut hi: u64 = 0x10000;
        // invariant: lo*lo <= n < hi*hi
        assert(0x10000u64 * 0x10000u64 == 0x1_0000_0000u64);
        while lo + 1 < hi
            invariant
                lo < hi <= 0x10000,
                lo * lo <= n as int,
                (n as int) < hi * hi,
            decreases hi - lo,
        {
            let mid = lo + (hi - lo) / 2;
            assert(mid * mid <= 0x1_0000_0000) by (nonlinear_arith)
                requires
                    mid <= 0x10000,
            ;
            if mid * mid <= n as u64 {
                lo = mid;
            } else {
                hi = mid;
            }
        }
        assert(hi == lo + 1);
        lo as u32
    }

    /// The bearing from (x1, y1) toward (x2, y2) on the torus, in
    /// 2048-unit angles (0 = toward −y, 512 = toward +x).
    pub fn angle_between(x1: u16, y1: u16, x2: u16, y2: u16) -> (a: u16)
        ensures
            a == bearing_spec(wrap_diff(x1, x2), wrap_diff(y1, y2)),
            a < 2048,
    {
        bearing(wdiff(x1, x2) as i64, wdiff(y1, y2) as i64)
    }

    /// The pitch that climbs from z to tz over the horizontal distance
    /// dh, in 2048-unit angles (wrapped: a downward pitch reads as
    /// 2048 − |pitch|).
    pub fn pitch_toward(z: i16, tz: i16, dh: i32) -> (p: u16)
        requires
            dh >= 0,
        ensures
            p < 2048,
            p == ({
                let rise = tz as int - z as int;
                let up = bearing_spec(if rise >= 0 { rise } else { -rise }, -(dh as int));
                let a = if up > 512 { 512 } else { up };
                if rise >= 0 { a } else { (2048 - a) % 2048 }
            }),
    {
        let rise = tz as i64 - z as i64;
        let ar: i64 = if rise >= 0 { rise } else { -rise };
        let up = bearing(ar, -(dh as i64));
        let a: u16 = if up > 512 { 512 } else { up };
        if rise >= 0 {
            a
        } else {
            (2048 - a) % 2048
        }
    }

    /// Step `pos` `dist` units along heading `yaw` and pitch `pitch`
    /// (x toward +sin, y toward −cos; z rises by sin(pitch)).
    pub fn polar_step(pos: &mut (u16, u16, i16), yaw: u16, pitch: u16, dist: i16)
        ensures
            *final(pos) == polar_spec(*old(pos), yaw, pitch, dist),
    {
        let cp = cos_a(pitch as u32);
        let sp = sin_a(pitch as u32);
        let sy = sin_a(yaw as u32);
        let cy = cos_a(yaw as u32);
        let d = dist as i64;
        let flat = scale(d, cp);
        let dx = scale(flat, sy);
        let dy = scale(flat, cy);
        let dz = scale(d, sp);
        let nx = ((pos.0 as i64 + dx + 0x10000) % 0x10000) as u16;
        let ny = ((pos.1 as i64 - dy + 0x10000) % 0x10000) as u16;
        let nz = ((pos.2 as i64 + dz + 0x8000 + 0x10000) % 0x10000 - 0x8000) as i16;
        *pos = (nx, ny, nz);
    }

    /// The (10,39) mana-sphere constructor at (x, y, z): an unowned,
    /// empty sphere.
    pub fn spawn_mana_ball(&mut self, x: u16, y: u16, z: i16) -> (r: Option<usize>)
        requires
            old(self).wf(),
        ensures
            final(self).wf(),
            final(self).keeps_world(old(self)),
            final(self).sounds == old(self).sounds,
            match r {
                Some(i) => {
                    &&& old(self).free.len() > 0
                    &&& i == old(self).free@.last()
                    &&& final(self).free@ == old(self).free@.drop_last()
                    &&& final(self).slot_ok(i as int)
                    &&& final(self).ent[i as int] == (Ent {
                        class64: 10,
                        model65: 39,
                        tick70: 39,
                        x,
                        y,
                        z,
                        f140: 0,
                        f144: 0,
                        ..fresh_ent(i as int)
                    })
                    &&& final(self).same_except(old(self), i as int, i as int)
                },
                None => {
                    &&& old(self).free.len() == 0
                    &&& final(self).free@ == old(self).free@
                    &&& final(self).ent == old(self).ent
                },
            },
    {
        let i = match self.new_event() {
            Some(i) => i,
            None => return None,
        };
        self.ent[i].class64 = 10;
        self.ent[i].model65 = 39;
        self.ent[i].tick70 = 39;
        self.ent[i].f140 = 0;
        self.ent[i].f144 = 0;
        self.link(i, x, y, z);
        Some(i)
    }

    /// The player slot (team) of an owner tag: the human is 0, a rival
    /// wizard its slot in `rival_ents`.
    pub fn owner_team(&self, own: u16) -> (r: Option<u8>)
        ensures
            own == PLAYER_TARGET ==> r == Some(0u8),
            own != PLAYER_TARGET ==> match r {
                Some(s) => 1 <= s < 8 && own != 0 && self.rival_ents[s as int] == own && forall|k: int|
                    1 <= k < s ==> self.rival_ents[k] != own,
                None => own == 0 || forall|k: int| 1 <= k < 8 ==> self.rival_ents[k] != own,
            },
    {
        if own == PLAYER_TARGET {
            return Some(0);
        }
        if own == 0 {
            return None;
        }
        let mut s: usize = 1;
        while s < 8
            invariant
                1 <= s <= 8,
                own != 0,
                own != PLAYER_TARGET,
                forall|k: int| 1 <= k < s ==> self.rival_ents[k] != own,
            decreases 8 - s,
        {
            if self.rival_ents[s] == own {
                return Some(s as u8);
            }
            s = s + 1;
        }
        None
    }
}

} // verus!
