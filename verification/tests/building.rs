use mgc_sim::mc2::building::BuildingStep;
use mgc_sim::mc2::mobs::{MobCtx, GOAT_BASE};
use mgc_sim::pool::{BehaviorRow, BuildDef, FeatureAssets, Gen, Planes, tile};

fn building_gen(code: u8, pad: u8, flags: Vec<u8>, ceiling: Vec<u8>) -> Gen {
    let planes = Planes {
        height: vec![100; 0x10000],
        tile_type: vec![5; 0x10000],
        angle: vec![5; 0x10000],
        ceiling,
    };
    let assets = FeatureAssets {
        build_tab: vec![BuildDef { offset: 0, w: 1, h: 1 }],
        build_dat: vec![code, pad],
        spells: Vec::new(),
        mc2_sprite_ext: Vec::new(),
        behavior: Vec::new(),
        auto_flat: Vec::new(),
        bldg_flags: flags,
    };
    Gen::new(planes, assets)
}

fn place(g: &mut Gen, row: u8, life: i32, max_life: u32) -> usize {
    let i = g.new_event().expect("building slot");
    {
        let e = &mut g.ent[i];
        e.class64 = 4;
        e.f71 = row;
        e.act_life = life;
        e.max_life = max_life;
        e.f44 = 3;
        e.id24 = 1;
    }
    g.link(i, 50 << 8, 50 << 8, 0);
    i
}

#[test]
fn a_rising_tick_lerps_the_pad_one_life_step() {
    let mut g = building_gen(0xff, 110, Vec::new(), Vec::new());
    let i = place(&mut g, 0, 11, 11);
    let step = g.mc2_building_tick(i);
    assert!(matches!(step, BuildingStep::Rising));
    assert_eq!(g.ent[i].act_life, 10);
    let t = tile(50, 50);
    assert_eq!(g.t.height[t], 101, "100 + (110 - 100) / 10");
    assert_eq!(g.t.height[tile(51, 50)], 100, "outside the footprint");
    assert_eq!(g.t.tile_type[t], 5, "no paint code: no paint");
}

#[test]
fn a_cadence_tick_paints_the_coded_cell() {
    let mut g = building_gen(3, 0xff, Vec::new(), Vec::new());
    let i = place(&mut g, 0, 6, 100);
    let step = g.mc2_building_tick(i);
    assert!(matches!(step, BuildingStep::Rising));
    let t = tile(50, 50);
    assert_eq!(g.t.tile_type[t], 1, "painted village ground");
    assert_eq!(g.t.angle[t], 1, "angle low bits 1, band bits kept");
    assert_eq!(g.paints, vec![(0u8, 50u8, 50u8, 3u8)]);
}

#[test]
fn a_raised_cave_ceiling_bubbles_over_the_pad() {
    let mut g = building_gen(0xff, 110, Vec::new(), vec![120; 0x10000]);
    let i = place(&mut g, 0, 11, 11);
    g.mc2_building_tick(i);
    let t = tile(50, 50);
    assert_eq!(g.t.height[t], 101);
    // bubble = 101 + 80 = 181; 120 + (181 - 120) / 10 = 126
    assert_eq!(g.t.ceiling[t], 126);
    assert_eq!(g.t.angle[t] & 8, 0, "the ceiling clears the floor");
}

#[test]
fn the_no_raise_flag_leaves_the_ceiling() {
    let mut g = building_gen(0xff, 110, vec![4], vec![120; 0x10000]);
    let i = place(&mut g, 0, 11, 11);
    g.mc2_building_tick(i);
    assert_eq!(g.t.ceiling[tile(50, 50)], 120);
}

#[test]
fn the_last_tick_parks_the_building_on_the_ground() {
    let mut g = building_gen(3, 110, Vec::new(), Vec::new());
    let i = place(&mut g, 0, 1, 11);
    g.ent[i].z = 40;
    let step = g.mc2_building_tick(i);
    assert!(matches!(step, BuildingStep::Finished));
    let e = &g.ent[i];
    assert_eq!(e.tick70, 52);
    assert_eq!(e.act_life, 3000, "1000 x the production rate");
    assert_eq!(e.site_z, 40);
    assert_eq!(e.z, 3200, "ground at height 100");
    assert_eq!(g.building_regions, vec![(50u8, 50u8, 50u8, 50u8)], "the painted cell queued for a retile");
}

#[test]
fn an_unknown_building_row_parks_at_once() {
    let mut g = building_gen(3, 110, Vec::new(), Vec::new());
    let i = place(&mut g, 9, 11, 11);
    let step = g.mc2_building_tick(i);
    assert!(matches!(step, BuildingStep::Invalid));
    assert_eq!(g.ent[i].tick70, 52);
    assert_eq!(g.ent[i].act_life, 11);
    assert_eq!(g.t.height[tile(50, 50)], 100);
}

fn plain_gen() -> Gen {
    building_gen(0xff, 0xff, Vec::new(), Vec::new())
}

#[test]
fn a_stone_stands_uncollidable_at_its_spot() {
    let mut g = plain_gen();
    let i = g.mc2_spawn_stone(1000, 2000, 300).expect("slot");
    let e = &g.ent[i];
    assert_eq!((e.class64, e.model65, e.tick70), (2, 1, 3));
    assert_eq!((e.x, e.y, e.z), (1000, 2000, 300));
    assert_eq!(e.flags & 8, 0);
    assert_eq!(e.f26, (i % 11) as i16);
    assert_eq!(e.type86, 79);
    assert_eq!(e.act_life as u32, e.max_life, "full life");
}

#[test]
fn a_dolmen_carries_the_wide_box() {
    let mut g = plain_gen();
    let i = g.mc2_spawn_dolmen(10, 20, 30).expect("slot");
    let e = &g.ent[i];
    assert_eq!((e.class64, e.model65, e.tick70), (2, 2, 6));
    assert_eq!((e.f80, e.f82, e.f84), (1024, 1024, 1024));
    assert_eq!(e.type86, 39);
}

#[test]
fn a_ground_fire_burns_eight_ticks_for_400() {
    let mut g = plain_gen();
    let i = g.mc2_spawn_fire(10, 20, 30).expect("slot");
    let e = &g.ent[i];
    assert_eq!((e.class64, e.model65), (10, 0));
    assert_eq!((e.max_life, e.act_life, e.f140), (8, 8, 400));
    assert_eq!(e.flags & 0x2_0008, 0x2_0000);
    assert_eq!((e.f80, e.f82, e.f84), (128, 128, 128));
    assert_eq!(e.type86, 7);
    let j = g.mc2_spawn_big_explosion(10, 20, 30).expect("slot");
    let b = &g.ent[j];
    assert_eq!((b.class64, b.model65, b.tick70, b.act_life, b.f140, b.type86), (10, 1, 1, 1, 400, 41));
}

#[test]
fn a_tree_jitters_from_its_slot_stream() {
    let mut g = plain_gen();
    let i = g.mc2_spawn_tree(5000, 5000, 0).expect("slot");
    let lcg = |r: u32| (9377 * r + 9439) % 0x10000;
    let r1 = lcg(i as u32);
    let r2 = lcg(r1);
    let r3 = lcg(r2);
    let r4 = lcg(r3);
    let e = &g.ent[i];
    assert_eq!(e.x as i32, 5000 + (r2 & 0x3F) as i32 - 32);
    assert_eq!(e.y as i32, 5000 + (r3 & 0x3F) as i32 - 32);
    assert_eq!(e.rand, r4);
    assert_eq!(e.type86, if r4 & 1 != 0 { 84 } else { 83 });
    assert_eq!((e.f56, e.f28), (1, 1), "burnable on channel 0");
    assert_eq!(e.act_life as u32, e.max_life, "the life roll is overwritten by the refill");
}

#[test]
fn the_altitude_commit_sinks_then_floors_at_the_hover() {
    let mut g = plain_gen();
    g.assets.behavior = vec![BehaviorRow { v_12: 100, v_14: -16 }];
    let i = g.new_event().expect("slot");
    g.ent[i].row156 = 0;
    g.link(i, 50 << 8, 50 << 8, 5000);
    g.mc2_alt_commit(i);
    assert_eq!(g.ent[i].z, 4984, "above ground: one v_14 step down");
    g.ent[i].z = 3000;
    g.mc2_alt_commit(i);
    assert_eq!(g.ent[i].z, 3300, "floored at ground 3200 + hover 100");
}

#[test]
fn the_wander_turn_draws_side_then_magnitude() {
    let mut g = plain_gen();
    let i = g.new_event().expect("slot");
    g.ent[i].f34 = 2000;
    let r0 = g.ent[i].rand;
    g.mc2_wander_turn(i);
    let lcg = |r: u32| (9377 * r + 9439) % 0x10000;
    let v = lcg(r0);
    let r = lcg(v);
    let mag = ((r & 0xFF) + 85) as i32;
    let step = if (v % 0x9D) / 79 == 0 { -mag } else { mag };
    assert_eq!(g.ent[i].f34 as i32, (2000 + step).rem_euclid(0x800));
    assert_eq!(g.ent[i].rand, r);
}

#[test]
fn an_unaimed_archer_drops_to_its_minimum_speed() {
    let mut g = plain_gen();
    let i = g.new_event().expect("slot");
    g.ent[i].speed128 = 54;
    g.ent[i].f126 = 200;
    g.archer_unaim(i);
    let e = &g.ent[i];
    assert_eq!(e.f126, 54);
    assert_eq!((e.type86, e.f80, e.f82, e.f84, e.f66, e.f67), (0, 128, 128, 256, 3, 0xFF));
}

#[test]
fn the_doom_summon_homes_on_live_targets_only() {
    let mut g = plain_gen();
    let ctx = MobCtx { px: 1, py: 2, pz: 3 };
    assert_eq!(g.mc2_doom_target_pos(0xFFFF, &ctx), Some((1, 2, 3)));
    assert_eq!(g.mc2_doom_target_pos(0, &ctx), None);
    let i = g.new_event().expect("slot");
    g.link(i, 10, 20, 30);
    g.ent[i].act_life = 5;
    assert_eq!(g.mc2_doom_target_pos(i as u16, &ctx), Some((10, 20, 30)));
    g.ent[i].flags |= 0x400;
    assert_eq!(g.mc2_doom_target_pos(i as u16, &ctx), None, "reaped");
    assert_eq!(g.mc2_doom_target_pos(60_000, &ctx), None, "beyond the pool");
}

#[test]
fn the_goat_fixup_and_screech() {
    let mut g = plain_gen();
    let i = g.new_event().expect("slot");
    g.ent[i].speed128 = 54;
    g.ent[i].f126 = 18;
    g.ent[i].tick70 = GOAT_BASE + 1;
    g.goat_speed_fixup(i);
    assert_eq!(g.ent[i].f126, 18, "not running: kept");
    g.ent[i].tick70 = GOAT_BASE + 6;
    g.goat_speed_fixup(i);
    assert_eq!(g.ent[i].f126, 54, "the flee run drops to the minimum");
    let r0 = g.ent[i].rand;
    let r = (9377 * r0 + 9439) % 0x10000;
    g.goat_snd(i, 1);
    assert_eq!(g.sounds, vec![(46u8, i as u16)], "every draw is a multiple of 1");
    assert_eq!(g.ent[i].rand, r);
    let before = g.sounds.len();
    g.ent[i].rand = 0;
    // lcg(0) = 9439, odd: no screech at modulus 2.
    g.goat_snd(i, 2);
    assert_eq!(g.sounds.len(), before);
}
