use mgc_sim::pool::{BehaviorRow, BuildDef, FeatureAssets, Gen, Planes, SpellRow, SubSpell, WorldPatches, tile};
use mgc_sim::mc2::castle::mc2_stage_parts;

fn planes(ceiling: Vec<u8>) -> Planes {
    Planes {
        height: vec![100; 0x10000],
        tile_type: vec![5; 0x10000],
        angle: vec![5; 0x10000],
        ceiling,
    }
}

fn empty_assets() -> FeatureAssets {
    FeatureAssets {
        build_tab: Vec::new(),
        build_dat: Vec::new(),
        spells: Vec::new(),
        mc2_sprite_ext: Vec::new(),
        behavior: Vec::new(),
        auto_flat: Vec::new(),
        bldg_flags: Vec::new(),
    }
}

fn flat_gen() -> Gen {
    Gen::new(planes(Vec::new()), empty_assets())
}

fn zero_sub() -> SubSpell {
    SubSpell {
        mana_cost: 0,
        hint_text: 0,
        sub_spell: 0,
        word_0x18: 0,
        font_type: 0,
        max_mana_limit: 0,
        xpos1: 0,
        life: 0,
    }
}

fn zero_row() -> SpellRow {
    SpellRow { byte_0: 0, tiers: [zero_sub(); 3] }
}

#[test]
fn mc2_castle_downgrade_survives_oversized_capacity() {
    let mut g = flat_gen();
    let i = g.new_event().expect("castle slot");
    {
        let e = &mut g.ent[i];
        e.class64 = 3;
        e.model65 = 2;
        e.f26 = 7;
        e.f136 = i32::MAX;
        e.f140 = 1_000;
        e.id24 = 1;
        e.x = 100 << 8;
        e.y = 100 << 8;
        e.act_life = 1;
    }
    let z = g.ground_z(100 << 8, 100 << 8) as i16;
    g.link(i, 100 << 8, 100 << 8, z);
    g.mc2_castle_downgrade(i, WorldPatches::retail());
    assert_eq!(g.ent[i].f26, 6, "one level off, no overflow");
}

fn behavior_with_balloon_row() -> Vec<BehaviorRow> {
    let mut rows = vec![BehaviorRow { v_12: 0, v_14: 0 }; 69];
    rows[68] = BehaviorRow { v_12: 512, v_14: -16 };
    rows
}

#[test]
fn mc2_balloon_servo_descends_full_v14_in_band() {
    let mut g = flat_gen();
    g.assets.behavior = behavior_with_balloon_row();
    let ground = g.ground_z(100 << 8, 100 << 8) as i16;
    assert_eq!(ground, 3200, "flat_gen ground datum");
    let ball = g.new_event().expect("ball slot");
    {
        let e = &mut g.ent[ball];
        e.class64 = 10;
        e.model65 = 39;
        e.act_life = 100;
        e.f144 = 999;
    }
    g.link(ball, 120 << 8, 100 << 8, ground);
    let bal = g.new_event().expect("balloon slot");
    {
        let e = &mut g.ent[bal];
        e.class64 = 3;
        e.model65 = 3;
        e.tick70 = 9;
        e.row156 = 9;
        e.f126 = 48;
        e.pitch32 = 0;
        e.id24 = 1;
        e.f144 = 1;
        e.act_life = 10000;
        e.max_life = 10000;
        e.f146 = ball as u16;
    }
    let z0 = ground + 1024;
    g.link(bal, 100 << 8, 100 << 8, z0);
    g.mc2_balloon_tick(bal);
    assert_eq!(g.ent[bal].z, z0 - 16, "descends the full v14 above ground");
}

fn castle_gen() -> Gen {
    let mut g = flat_gen();
    g.assets.build_tab = vec![
        BuildDef { offset: 0, w: 3, h: 3 },
        BuildDef { offset: 0, w: 3, h: 3 },
        BuildDef { offset: 0, w: 5, h: 5 },
    ];
    g.assets.build_dat = vec![0xff; 2 * 25];
    g
}

fn place_castle(g: &mut Gen, x: u16, y: u16, lvl: i16, own: u16) -> usize {
    let i = g.new_event().expect("castle slot");
    {
        let e = &mut g.ent[i];
        e.class64 = 3;
        e.model65 = 2;
        e.f26 = lvl;
        e.id24 = own;
        e.act_life = 1;
    }
    let z = g.ground_z(x, y) as i16;
    g.link(i, x, y, z);
    g.mc2_castle_extents(i, lvl.clamp(0, 7) as u8);
    i
}

#[test]
fn space_check_blocks_on_castles_not_props() {
    let mut g = castle_gen();
    let a = place_castle(&mut g, 100 << 8, 100 << 8, 1, 1);
    assert!(g.mc2_castle_space_ok(a), "clear ground upgrades fine");
    let b = place_castle(&mut g, 101 << 8, 100 << 8, 1, 2);
    assert!(!g.mc2_castle_space_ok(a), "a rival castle blocks");
    g.ent[b].class64 = 10;
    assert!(g.mc2_castle_space_ok(a), "a (10,2) prop does not block");
}

#[test]
fn castle_death_spills_the_whole_bank() {
    let mut g = castle_gen();
    let i = place_castle(&mut g, 100 << 8, 100 << 8, 1, 7);
    g.ent[i].f136 = 50_000;
    g.ent[i].f140 = 20_000;
    g.mc2_castle_destroy(i, WorldPatches::retail());
    assert_ne!(g.ent[i].flags & 0x400, 0, "level-1 destroy kills");
    let spilled: i32 = (1..g.ent.len())
        .filter(|&j| {
            j != i
                && g.ent[j].class64 == 10
                && g.ent[j].model65 == 39
                && g.ent[j].f144 == 7
                && g.ent[j].flags & 0x400 == 0
        })
        .map(|j| g.ent[j].f140)
        .sum();
    assert_eq!(spilled, 20_000, "the whole bank rides out as spheres");
}

fn turret_gen() -> Gen {
    let mut g = castle_gen();
    let mut spells = vec![zero_row(); 10];
    spells[0].tiers[1].sub_spell = 555;
    spells[0].tiers[1].life = 1;
    spells[7].tiers[0].sub_spell = 777;
    for t in 0..3 {
        spells[2].tiers[t].life = t as i8;
        spells[2].tiers[t].sub_spell = i32::from(t == 2);
    }
    g.assets.spells = spells;
    g
}

#[test]
fn fire_turret_spawns_and_shoots_the_hostile() {
    let mut g = turret_gen();
    let c0 = place_castle(&mut g, 50 << 8, 50 << 8, 1, 9);
    g.mc2_castle_stages(c0);
    assert!(
        !(1..g.ent.len()).any(|j| g.ent[j].class64 == 10 && g.ent[j].model65 == 79),
        "no research → no towers (a fresh retail castle)"
    );
    g.mc2_research_stamp(9, 1, 1);
    g.mc2_castle_stages(c0);
    let p = (1..g.ent.len())
        .find(|&j| g.ent[j].class64 == 10 && g.ent[j].model65 == 79 && g.ent[j].flags & 0x400 == 0)
        .expect("stage-1 spawns its one turret");
    assert_eq!(g.ent[p].f67, 1, "part-type = the cast tier's life_0x1A");
    assert_eq!(g.ent[p].f26, 1, "stage tag");
    let h = g.new_event().expect("hostile slot");
    {
        let e = &mut g.ent[h];
        e.class64 = 5;
        e.model65 = 0;
        e.act_life = 100;
    }
    let (hx, hy) = (((50 + 5) << 8) as u16, (50 << 8) as u16);
    let hz = g.ground_z(hx, hy) as i16;
    g.link(h, hx, hy, hz);
    let mut shot = None;
    for _ in 0..300 {
        g.ent[p].f63 = 0;
        g.mc2_castle_piece_tick(p, None);
        shot = (1..g.ent.len()).find(|&j| g.ent[j].class64 == 9);
        if shot.is_some() {
            break;
        }
    }
    let s = shot.expect("the turret fires within the dwell+windup budget");
    let e = &g.ent[s];
    assert_eq!(e.model65, 0, "fire tower common mode = fireball tier 1");
    assert_eq!(e.id24, 9, "kills attribute to the castle's wizard");
    assert_eq!(e.f146, h as u16, "homing the scanned hostile");
    assert_eq!(e.f44, 555, "the tier payload rides f44");
    assert_eq!(e.f40, 0, "no XP back-ref on turret shots");
    assert_eq!(g.ent[p].f71, 8, "burst continues (6-shot common mode)");
}

#[test]
fn lightning_tower_and_the_walkdown_law() {
    let mut g = turret_gen();
    let c = place_castle(&mut g, 50 << 8, 50 << 8, 2, 9);
    g.mc2_research_stamp(9, 1, 2);
    g.mc2_castle_stages(c);
    let pieces: Vec<usize> = (1..g.ent.len())
        .filter(|&j| g.ent[j].class64 == 10 && g.ent[j].model65 == 79 && g.ent[j].flags & 0x400 == 0)
        .collect();
    assert_eq!(pieces.len(), 1, "level 2, stage-1 research → stage-1 ring");
    let p = pieces[0];
    assert_eq!(g.ent[p].f67, 2, "lightning part-type");
    let h = g.new_event().expect("hostile");
    {
        let e = &mut g.ent[h];
        e.class64 = 5;
        e.model65 = 0;
        e.act_life = 100;
    }
    let (hx, hy) = (((50 + 4) << 8) as u16, (50 << 8) as u16);
    let hz = g.ground_z(hx, hy) as i16;
    g.link(h, hx, hy, hz);
    let mut shot = None;
    for _ in 0..300 {
        g.ent[p].f63 = 0;
        g.mc2_castle_piece_tick(p, None);
        shot = (1..g.ent.len()).find(|&j| g.ent[j].class64 == 9);
        if shot.is_some() {
            break;
        }
    }
    let s = shot.expect("the lightning tower fires");
    assert!(
        matches!(g.ent[s].model65, 9 | 12 | 3),
        "a lightning-tower arm, got subtype {}",
        g.ent[s].model65
    );
}

#[test]
fn unstamp_smoother_averages_natural_neighbours() {
    let mut g = flat_gen();
    let t = tile(50, 50);
    g.t.height[t] = 200;
    g.mc2_smooth_pad_edge(50, 50);
    assert_eq!(g.t.height[t] as u32, (200 + 8 * 100) / 9, "3×3 average");
    let t2 = tile(60, 60);
    g.t.height[t2] = 200;
    g.t.tile_type[tile(59, 59)] = 0x10;
    g.mc2_smooth_pad_edge(60, 60);
    assert_eq!(g.t.height[t2], 200, "corner sample gate vetoes");
}

#[test]
fn cave_painter_carves_headroom_and_keeps_the_seal() {
    let mut build_dat = Vec::new();
    for _ in 0..9 {
        build_dat.extend_from_slice(&[0xff, 40]);
    }
    let mut assets = empty_assets();
    assets.build_tab = vec![BuildDef { offset: 0, w: 3, h: 3 }, BuildDef { offset: 0, w: 3, h: 3 }];
    assets.build_dat = build_dat;
    let mut g = Gen::new(planes(vec![120; 0x10000]), assets);
    let i = g.new_event().expect("painter slot");
    {
        let e = &mut g.ent[i];
        e.class64 = 10;
        e.model65 = 42;
        e.f40 = 0;
        e.f71 = 1;
        e.f59 = 0;
        e.x = 50 << 8;
        e.y = 50 << 8;
        e.z = 100 << 5;
        e.flags &= !2;
    }
    for _ in 0..2000 {
        if g.ent[i].flags & 0x400 != 0 {
            break;
        }
        g.mc2_castle_painter_tick(i);
    }
    assert_ne!(g.ent[i].flags & 0x400, 0, "painter finished");
    for gy in 49..=51u8 {
        for gx in 49..=51u8 {
            let t = tile(gx, gy);
            let (floor, ceil, angle) = (g.t.height[t], g.t.ceiling[t], g.t.angle[t]);
            assert_eq!(floor, 140, "target = c[1] 40 + datum 100");
            assert_eq!(ceil, 240, "headroom = max(floor,datum)+100");
            assert_eq!(angle & 8, 0, "open cell: bit3 clear");
            assert_eq!(angle & 0x80, 0, "no phase-B bit7 promote on caves");
        }
    }
}

#[test]
fn stage_parts_match_the_db038_decode() {
    const DB038: [u8; 52] = [
        0x00, 0x00, 0x01, 0x00, 0x04, 0x01, 0x04, 0x01, 0x04, 0x05, 0x04, 0x05, 0x08, 0x09, 0x08,
        0x09, 0x00, 0x00, 0x04, 0x04, 0x03, 0x03, 0x11, 0x03, 0x03, 0x11, 0x11, 0x11, 0x03, 0x03,
        0x1F, 0x03, 0x03, 0x1F, 0x1F, 0x1F, 0x03, 0x03, 0x18, 0x03, 0x2D, 0x03, 0x03, 0x18, 0x2D,
        0x18, 0x03, 0x2D, 0x18, 0x2D, 0x2D, 0x2D,
    ];
    for lvl in 0..8usize {
        let count = DB038[2 * lvl] as usize;
        let slot = DB038[1 + 2 * lvl] as usize;
        let decoded: Vec<(u8, u8)> = (0..count)
            .map(|p| (DB038[18 + 2 * (slot + p)], DB038[18 + 2 * (slot + p) + 1]))
            .collect();
        assert_eq!(mc2_stage_parts(lvl as u8), decoded, "level {lvl} piece list");
    }
}

#[test]
fn a_castle_preclear_cuts_the_building_degradation_link() {
    let mut g = flat_gen();
    g.assets.build_tab = vec![BuildDef { offset: 0, w: 3, h: 3 }, BuildDef { offset: 0, w: 3, h: 3 }];
    let (cx, cy) = (100u16 << 8, 100u16 << 8);
    let c = g.new_event().expect("castle slot");
    {
        let e = &mut g.ent[c];
        e.class64 = 3;
        e.model65 = 2;
        e.f26 = 0;
        e.id24 = 1;
        e.act_life = 1;
        e.f80 = 512;
        e.f82 = 512;
    }
    let z = g.ground_z(cx, cy) as i16;
    g.link(c, cx, cy, z);
    let mk = |g: &mut Gen, x: u16, y: u16| -> usize {
        let b = g.new_event().expect("building slot");
        {
            let e = &mut g.ent[b];
            e.class64 = 10;
            e.model65 = 45;
            e.act_life = 30;
            e.f46 = 7;
            e.f80 = 256;
            e.f82 = 256;
        }
        let z = g.ground_z(x, y) as i16;
        g.link(b, x, y, z);
        b
    };
    let inside = mk(&mut g, cx, cy);
    let outside = mk(&mut g, 140u16 << 8, 140u16 << 8);
    g.mc2_castle_preclear(c);
    assert_eq!(g.ent[inside].act_life, -1, "the overlapping building dies");
    assert_eq!(g.ent[inside].f46, 0, "and its degradation link is cut");
    assert_eq!(g.ent[outside].act_life, 30, "a building outside the next footprint is untouched");
    assert_eq!(g.ent[outside].f46, 7, "so is its link");
}

#[test]
fn a_balloon_swallows_its_owned_sphere_in_reach() {
    let mut g = flat_gen();
    g.assets.behavior = behavior_with_balloon_row();
    let ground = g.ground_z(100 << 8, 100 << 8) as i16;
    let ball = g.new_event().expect("ball slot");
    {
        let e = &mut g.ent[ball];
        e.class64 = 10;
        e.model65 = 39;
        e.act_life = 100;
        e.f144 = 1;
        e.f140 = 700;
        e.f80 = 64;
        e.f82 = 64;
    }
    g.link(ball, (100 << 8) + 10, 100 << 8, ground);
    let bal = g.new_event().expect("balloon slot");
    {
        let e = &mut g.ent[bal];
        e.class64 = 3;
        e.model65 = 3;
        e.tick70 = 9;
        e.row156 = 9;
        e.f126 = 48;
        e.id24 = 1;
        e.f144 = 1;
        e.f140 = 300;
        e.act_life = 10000;
        e.max_life = 10000;
        e.f146 = ball as u16;
        e.f80 = 64;
        e.f82 = 64;
    }
    g.link(bal, 100 << 8, 100 << 8, ground + 600);
    g.mc2_balloon_tick(bal);
    assert_eq!(g.ent[bal].f140, 1000, "cargo 300 + sphere 700");
    assert_eq!(g.ent[bal].f146, 0, "target cleared");
    assert_ne!(g.ent[ball].flags & 0x400, 0, "the sphere is reaped");
}

#[test]
fn the_region_smoother_walks_its_tiles() {
    let mut g = flat_gen();
    g.t.height[tile(50, 50)] = 200;
    g.mc2_smooth_heights_region(50, 50, 1, 1);
    assert_eq!(g.t.height[tile(50, 50)], 111, "3×3 average of 200 among 100s");
    g.t.height[tile(60, 60)] = 200;
    g.t.tile_type[tile(59, 59)] = 0x10;
    g.mc2_smooth_heights_region(60, 60, 1, 1);
    assert_eq!(g.t.height[tile(60, 60)], 200, "a building-material corner vetoes");
}

fn hit_balloon(own: u16) -> (Gen, usize) {
    let mut g = flat_gen();
    g.assets.behavior = behavior_with_balloon_row();
    let ground = g.ground_z(100 << 8, 100 << 8) as i16;
    let ball = g.new_event().expect("ball slot");
    {
        let e = &mut g.ent[ball];
        e.class64 = 10;
        e.model65 = 39;
        e.act_life = 100;
        e.f144 = own;
        e.f140 = 700;
        e.f80 = 64;
        e.f82 = 64;
    }
    g.link(ball, (100 << 8) + 10, 100 << 8, ground);
    let bal = g.new_event().expect("balloon slot");
    {
        let e = &mut g.ent[bal];
        e.class64 = 3;
        e.model65 = 3;
        e.tick70 = 9;
        e.row156 = 9;
        e.f126 = 48;
        e.id24 = own;
        e.f144 = own;
        e.f140 = 300;
        e.act_life = 10000;
        e.max_life = 10000;
        e.f146 = ball as u16;
        e.f80 = 64;
        e.f82 = 64;
        e.mail[0] = (250, 5);
    }
    g.link(bal, 100 << 8, 100 << 8, ground + 600);
    (g, bal)
}

#[test]
fn a_hit_balloon_loses_the_amount_and_clears_the_channel() {
    let (mut g, bal) = hit_balloon(1);
    g.mc2_balloon_tick(bal);
    assert_eq!(g.ent[bal].act_life, 10000 - 250, "life drops by the hit");
    assert_eq!(g.ent[bal].mail[0], (250, 0), "the channel's source is cleared");
    assert_eq!(g.balloon_alert, 0, "a rival's balloon raises no latch");
}

#[test]
fn the_humans_hit_balloon_raises_the_latch() {
    let (mut g, bal) = hit_balloon(0xFFFF);
    g.mc2_balloon_tick(bal);
    assert_eq!(g.ent[bal].act_life, 10000 - 250, "life drops by the hit");
    assert_eq!(g.balloon_alert, 4, "the human's balloon latch");
}
