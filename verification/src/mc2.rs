//! The MC2 simulation column: the team-art permutation and the
//! sprite-extents derivation here; the castle column, the spell
//! machinery and the creature helpers in the submodules.

use vstd::prelude::*;

pub mod cast;
pub mod castle;
pub mod mobs;
pub mod building;

verus! {

/// The permutation between a player's colour slot and the index of
/// his art family (single-player branch).
pub const COLOR_ART: [u8; 8] = [0, 1, 4, 3, 2, 5, 7, 6];

/// The art family of colour slot `slot`.
pub open spec fn color_art_spec(slot: u8) -> u8 {
    if slot < 8 {
        COLOR_ART@[slot as int]
    } else {
        slot
    }
}

/// Art-family index for a colour slot (see [`COLOR_ART`]); slots
/// beyond 7 clamp to the identity.
pub fn color_art(slot: u8) -> (r: u8)
    ensures
        r == color_art_spec(slot),
        slot < 8 ==> r < 8,
{
    proof {
        lemma_color_art_table();
    }
    if slot < 8 {
        COLOR_ART[slot as usize]
    } else {
        slot
    }
}

proof fn lemma_color_art_table()
    ensures
        COLOR_ART@ == seq![0u8, 1, 4, 3, 2, 5, 7, 6],
{
    assert(COLOR_ART@ =~= seq![0u8, 1, 4, 3, 2, 5, 7, 6]);
}

/// The colour/art permutation is its own inverse: mapping a slot to
/// its art family and that family back as a slot returns the slot.
pub proof fn law_color_art_involution(slot: u8)
    ensures
        color_art_spec(color_art_spec(slot)) == slot,
{
    lemma_color_art_table();
}

/// The wizard-carpet sprite-param row of colour slot `slot`.
pub open spec fn carpet_sprite_row_spec(slot: u8) -> u16 {
    let k = color_art_spec(slot);
    if k == 0 {
        44
    } else {
        (272 + k as int) as u16
    }
}

/// The wizard-carpet sprite-param row for a player's colour slot:
/// art family 0 takes row 44, families k ≥ 1 row 272 + k.
pub fn carpet_sprite_row(slot: u8) -> (r: u16)
    ensures
        r == carpet_sprite_row_spec(slot),
{
    let k = color_art(slot);
    if k == 0 {
        44
    } else {
        272 + k as u16
    }
}

/// Two different colour slots never share a carpet row.
pub proof fn law_carpet_rows_distinct(a: u8, b: u8)
    requires
        a != b,
    ensures
        carpet_sprite_row_spec(a) != carpet_sprite_row_spec(b),
{
    lemma_color_art_table();
    law_color_art_involution(a);
    law_color_art_involution(b);
}

/// One static sprite-param row: its sprite index and the stored half
/// of the (speed_6, rot_speed_8) pair.
#[derive(Clone, Copy)]
pub struct SpriteParam {
    pub word_0: u16,
    pub speed_6: u16,
    pub rot_speed_8: u16,
}

/// The derived (speed_6, rot_speed_8) of one row given the sprite's
/// (width, height): a zero dimension takes the 255×255 fallback; the
/// missing half of the pair comes from the bitmap aspect; both clamp
/// to 16 bits.
pub open spec fn derive_row(p: SpriteParam, wh: (u16, u16)) -> (u16, u16) {
    let (w, h) = if wh.0 == 0 || wh.1 == 0 {
        (255int, 255int)
    } else {
        (wh.0 as int, wh.1 as int)
    };
    let s6 = p.speed_6 as int;
    let r8 = p.rot_speed_8 as int;
    let (s, r) = if s6 != 0 {
        if r8 == 0 {
            (s6, h * s6 / w)
        } else {
            (s6, r8)
        }
    } else {
        (w * r8 / h, r8)
    };
    (
        (if s > 0xFFFF {
            0xFFFF
        } else {
            s
        }) as u16,
        (if r > 0xFFFF {
            0xFFFF
        } else {
            r
        }) as u16,
    )
}

/// What a derived pair must satisfy against the row's stored half and
/// the sprite's (width, height) `wh` (a zero side reads as the 255×255
/// fallback): a stored speed_6 is kept; a row with both halves keeps
/// both; a missing rot_speed_8 is ⌊height·speed_6 / width⌋ and a
/// missing speed_6 is ⌊width·rot_speed_8 / height⌋, each saturating at
/// 0xFFFF.
pub open spec fn extents_fit(p: SpriteParam, wh: (u16, u16), o: (u16, u16)) -> bool {
    let fallback = wh.0 == 0 || wh.1 == 0;
    let w: int = if fallback { 255 } else { wh.0 as int };
    let h: int = if fallback { 255 } else { wh.1 as int };
    let s6 = p.speed_6 as int;
    let r8 = p.rot_speed_8 as int;
    let a = o.0 as int;
    let b = o.1 as int;
    &&& s6 != 0 ==> a == s6
    &&& s6 != 0 && r8 != 0 ==> b == r8
    &&& s6 != 0 && r8 == 0 ==> {
        &&& b < 0xFFFF ==> b * w <= h * s6 && h * s6 < (b + 1) * w
        &&& b == 0xFFFF ==> 0xFFFF * w <= h * s6
    }
    &&& s6 == 0 ==> {
        &&& b == r8
        &&& a < 0xFFFF ==> a * h <= w * r8 && w * r8 < (a + 1) * h
        &&& a == 0xFFFF ==> 0xFFFF * h <= w * r8
    }
}

/// The aspect law of the extents derivation: every derived pair fits
/// its row and the sprite's bitmap aspect (see [`extents_fit`]); in
/// particular a sprite at least as wide as it is tall never derives a
/// rot_speed_8 above its speed_6, nor a speed_6 below its rot_speed_8.
pub proof fn law_sprite_extents_aspect(p: SpriteParam, wh: (u16, u16))
    ensures
        extents_fit(p, wh, derive_row(p, wh)),
        ({
            let fallback = wh.0 == 0 || wh.1 == 0;
            let w: int = if fallback { 255 } else { wh.0 as int };
            let h: int = if fallback { 255 } else { wh.1 as int };
            let o = derive_row(p, wh);
            &&& p.speed_6 != 0 && p.rot_speed_8 == 0 && h <= w ==> o.1 <= p.speed_6
            &&& p.speed_6 == 0 && h <= w ==> o.0 >= p.rot_speed_8
        }),
{
    let fallback = wh.0 == 0 || wh.1 == 0;
    let w: int = if fallback { 255 } else { wh.0 as int };
    let h: int = if fallback { 255 } else { wh.1 as int };
    let s6 = p.speed_6 as int;
    let r8 = p.rot_speed_8 as int;
    assert(1 <= w <= 0xFFFF && 1 <= h <= 0xFFFF);
    let q1 = h * s6 / w;
    let q2 = w * r8 / h;
    assert(0 <= h * s6 && q1 * w <= h * s6 && h * s6 < (q1 + 1) * w) by (nonlinear_arith)
        requires
            q1 == h * s6 / w,
            1 <= w,
            0 <= h,
            0 <= s6,
    ;
    assert(0 <= w * r8 && q2 * h <= w * r8 && w * r8 < (q2 + 1) * h) by (nonlinear_arith)
        requires
            q2 == w * r8 / h,
            1 <= h,
            0 <= w,
            0 <= r8,
    ;
    assert(q1 >= 0xFFFF ==> 0xFFFF * w <= q1 * w) by (nonlinear_arith)
        requires
            1 <= w,
    ;
    assert(q2 >= 0xFFFF ==> 0xFFFF * h <= q2 * h) by (nonlinear_arith)
        requires
            1 <= h,
    ;
    assert(h <= w ==> q1 <= s6) by (nonlinear_arith)
        requires
            q1 * w <= h * s6,
            1 <= w,
            0 <= h,
            0 <= s6,
    ;
    assert(h <= w ==> q2 >= r8) by (nonlinear_arith)
        requires
            w * r8 < (q2 + 1) * h,
            1 <= h,
            0 <= r8,
            0 <= q2,
    ;
}

/// The dims entry of a sprite index ((0, 0) when absent).
pub open spec fn dims_of(dims: Seq<(u16, u16)>, idx: u16) -> (u16, u16) {
    if (idx as int) < dims.len() {
        dims[idx as int]
    } else {
        (0u16, 0u16)
    }
}

/// The retail sprite-extents derivation: the param table stores only
/// one of each row's (speed_6, rot_speed_8) pair; the other is derived
/// from the sprite's bitmap aspect (`speed_6 = width·rot_speed_8 /
/// height` or the transpose). `dims[sprite]` = (width, height);
/// missing or zero dims take the 255×255 fallback. Returns the
/// per-row derived pair for the rows of `params`.
pub fn derive_sprite_extents(params: &[SpriteParam], dims: &[(u16, u16)]) -> (out: Vec<(u16, u16)>)
    ensures
        out@.len() == params@.len(),
        forall|k: int|
            0 <= k < params@.len() ==> #[trigger] out@[k] == derive_row(
                params@[k],
                dims_of(dims@, params@[k].word_0),
            ),
        forall|k: int|
            0 <= k < params@.len() ==> extents_fit(params@[k], dims_of(dims@, params@[k].word_0), #[trigger] out@[k]),
{
    let mut out: Vec<(u16, u16)> = Vec::new();
    let mut k: usize = 0;
    while k < params.len()
        invariant
            k <= params@.len(),
            out@.len() == k,
            forall|j: int|
                0 <= j < k ==> #[trigger] out@[j] == derive_row(
                    params@[j],
                    dims_of(dims@, params@[j].word_0),
                ),
        decreases params@.len() - k,
    {
        let p = params[k];
        let (mut w, mut h) = if (p.word_0 as usize) < dims.len() {
            dims[p.word_0 as usize]
        } else {
            (0u16, 0u16)
        };
        if w == 0 || h == 0 {
            w = 255;
            h = 255;
        }
        let mut s6 = p.speed_6 as u32;
        let mut r8 = p.rot_speed_8 as u32;
        assert((h as u32) * s6 <= 0xFFFF * 0xFFFF) by (nonlinear_arith)
            requires
                h <= 0xFFFF,
                s6 <= 0xFFFF,
        ;
        assert((w as u32) * r8 <= 0xFFFF * 0xFFFF) by (nonlinear_arith)
            requires
                w <= 0xFFFF,
                r8 <= 0xFFFF,
        ;
        if s6 != 0 {
            if r8 == 0 {
                r8 = h as u32 * s6 / w as u32;
            }
        } else {
            s6 = w as u32 * r8 / h as u32;
        }
        let a: u16 = if s6 > 0xFFFF { 0xFFFF } else { s6 as u16 };
        let b: u16 = if r8 > 0xFFFF { 0xFFFF } else { r8 as u16 };
        out.push((a, b));
        k = k + 1;
    }
    proof {
        assert forall|k: int| 0 <= k < params@.len() implies extents_fit(
            params@[k],
            dims_of(dims@, params@[k].word_0),
            #[trigger] out@[k],
        ) by {
            law_sprite_extents_aspect(params@[k], dims_of(dims@, params@[k].word_0));
        }
    }
    out
}

} // verus!
