use mgc_sim::mc2::cast::{FireRequest, Muzzles};
use mgc_sim::pool::{FeatureAssets, Gen, Planes, SpellRow, SubSpell, PLAYER_TARGET};
use mgc_sim::world::{GameId, LifeState, PlayerPose, World};

fn sub(life: i8, sub_spell: i32) -> SubSpell {
    SubSpell {
        mana_cost: 0,
        hint_text: 0,
        sub_spell,
        word_0x18: 0,
        font_type: 0,
        max_mana_limit: 0,
        xpos1: 0,
        life,
    }
}

fn world_with(spells: Vec<SpellRow>, ceiling: Vec<u8>) -> World {
    let planes = Planes {
        height: vec![100; 0x10000],
        tile_type: vec![5; 0x10000],
        angle: vec![5; 0x10000],
        ceiling,
    };
    let assets = FeatureAssets {
        build_tab: Vec::new(),
        build_dat: Vec::new(),
        spells,
        mc2_sprite_ext: Vec::new(),
        behavior: Vec::new(),
        auto_flat: Vec::new(),
        bldg_flags: Vec::new(),
    };
    let mut w = World::new(Gen::new(planes, assets), GameId::Mc2);
    w.human_pose = (100 << 8, 100 << 8, 3500);
    w
}

fn seeded() -> World {
    let mut w = world_with(Vec::new(), Vec::new());
    w.mc2_seed_default_spells();
    w
}

fn pose() -> PlayerPose {
    PlayerPose { x: 100 << 8, y: 100 << 8, z: 3500, heading: 100, pitch: 2000, speed: 200 }
}

fn muzzles() -> Muzzles {
    Muzzles { left: (1000, 2000, 300), right: (1100, 2100, 310) }
}

#[test]
fn the_level_start_book_holds_fireball_and_possession() {
    let w = seeded();
    assert_ne!(w.mc2_book.ent[0], 0);
    assert_ne!(w.mc2_book.ent[1], 0);
    assert_eq!((w.mc2_book.left, w.mc2_book.right), (0, 1), "fireball left, possession right");
    assert_eq!(w.g.mc2_spell_tokens & 3, 3);
    let m = w.mc2_book.ent[1] as usize;
    assert_eq!((w.g.ent[m].class64, w.g.ent[m].model65), (15, 1));
    assert_eq!(w.g.ent[m].id24, PLAYER_TARGET);
}

#[test]
fn the_cast_gate_arms_the_window_on_the_firing_hand() {
    let mut w = seeded();
    let m = w.mc2_book.ent[0] as usize;
    w.g.ent[m].f28 = 5;
    w.g.ent[m].max_life = 100;
    w.g.ent[m].f56 = 1;
    w.player.mana = 500;
    w.mc2_cast_gate(0, true);
    assert_eq!(w.g.ent[m].f26, 5, "the window opens for the row's duration");
    assert_eq!(w.g.ent[m].f50, 512, "the right hand is recorded");
    assert_eq!(w.g.ent[m].f56, 0, "a stale release signal is cleared");
}

#[test]
fn a_zero_duration_row_still_casts_one_tick() {
    let mut w = seeded();
    let m = w.mc2_book.ent[0] as usize;
    w.g.ent[m].f28 = 0;
    w.g.ent[m].max_life = 0;
    w.mc2_cast_gate(0, false);
    assert_eq!(w.g.ent[m].f26, 1);
    assert_eq!(w.g.ent[m].f50, 256);
}

#[test]
fn a_broke_press_buzzes_and_arms_nothing() {
    let mut w = seeded();
    let m = w.mc2_book.ent[0] as usize;
    w.g.ent[m].f28 = 5;
    w.g.ent[m].max_life = 100;
    w.player.mana = 10;
    let n = w.g.sounds.len();
    w.mc2_cast_gate(0, false);
    assert_eq!(w.g.ent[m].f26, 0);
    assert_eq!(w.g.sounds.len(), n + 1);
    assert_eq!(w.g.sounds[n], (29, PLAYER_TARGET));
    w.dev_spells = true;
    w.mc2_cast_gate(0, false);
    assert_eq!(w.g.ent[m].f26, 5, "the all-spells instrument skips the mana gate");
}

#[test]
fn a_possession_re_press_raises_the_release_signal_without_the_mana_gate() {
    let mut w = seeded();
    let m = w.mc2_book.ent[1] as usize;
    w.g.ent[m].f26 = 3;
    w.g.ent[m].max_life = 1000;
    w.player.mana = 0;
    let n = w.g.sounds.len();
    w.mc2_cast_gate(1, false);
    assert_eq!(w.g.ent[m].f56, 1);
    assert_eq!(w.g.ent[m].f50, 256);
    assert_eq!(w.g.ent[m].f26, 3, "the marker timer never refreshes");
    assert_eq!(w.g.sounds.len(), n, "no buzz");
}

#[test]
fn the_charged_fireball_refuses_while_airborne() {
    let mut w = seeded();
    let m = w.mc2_book.ent[0] as usize;
    w.g.ent[m].f71 = 2;
    w.g.ent[m].f26 = 4;
    w.g.ent[m].f28 = 9;
    w.mc2_cast_gate(0, true);
    assert_eq!(w.g.ent[m].f26, 4);
    assert_eq!(w.g.ent[m].f50, 0);
}

#[test]
fn cave_in_is_refused_off_cave() {
    let mut w = seeded();
    let m = w.mc2_book.ent[0] as usize;
    w.mc2_book.ent[25] = m as u16;
    w.g.ent[m].f28 = 5;
    w.mc2_cast_gate(25, false);
    assert_eq!(w.g.ent[m].f26, 0);
}

#[test]
fn a_press_edge_fires_only_its_hand() {
    let mut w = seeded();
    let l = w.mc2_book.ent[0] as usize;
    let r = w.mc2_book.ent[1] as usize;
    w.g.ent[l].f28 = 5;
    w.g.ent[r].f28 = 7;
    w.player.mana = 10_000;
    w.mc2_cast_input((true, false), (false, false));
    assert_eq!(w.g.ent[l].f26, 5);
    assert_eq!(w.g.ent[r].f26, 0);
    w.mc2_cast_input((false, false), (false, true));
    assert_eq!(w.g.ent[r].f26, 0, "a held button on an idle window does not fire");
    w.player.state = LifeState::Dead;
    w.mc2_cast_input((false, true), (false, false));
    assert_eq!(w.g.ent[r].f26, 0, "the dead cast nothing");
}

#[test]
fn the_wraith_steals_the_hand_spell() {
    let mut w = seeded();
    let m = w.mc2_book.ent[1] as usize;
    w.g.ent[m].f54 = 0;
    w.mc2_spell_steal(77, 1);
    assert_eq!(w.mc2_book.ent[1], 0, "unlearned");
    assert_eq!(w.mc2_book.right, -1, "the hand is unbound");
    assert_eq!(w.mc2_book.left, 0);
    let e = &w.g.ent[m];
    assert_eq!((e.tick70, e.f38, e.f26, e.f36), (78, 77, 0, 1));
    assert_eq!((e.x, e.y, e.z), w.human_pose);
    assert_eq!(w.g.mc2_spell_tokens & 2, 0);
}

#[test]
fn a_locked_token_cannot_be_stolen() {
    let mut w = seeded();
    let m = w.mc2_book.ent[0] as usize;
    w.g.ent[m].f54 = 10;
    w.mc2_spell_steal(77, 0);
    assert_ne!(w.mc2_book.ent[0], 0);
    assert_eq!(w.mc2_book.left, 0);
}

#[test]
fn the_window_end_drops_the_armed_channels() {
    let mut w = seeded();
    let m = w.mc2_book.ent[0] as usize;
    w.player.shield = true;
    w.g.ent[m].f44 = 2;
    w.mc2_cast_expire(6, m);
    assert!(!w.player.shield);
    assert_eq!(w.g.ent[m].f44, 0, "the pending tier is consumed");
    w.mc2_duel = Some(5);
    w.mc2_cast_expire(14, m);
    assert_eq!(w.mc2_duel, None);
    w.player.rebound = true;
    w.g.mc2_rebound_precise = 1;
    w.mc2_cast_expire(8, m);
    assert!(!w.player.rebound);
    assert_eq!(w.g.mc2_rebound_precise, 0);
    w.mc2_cast_expire(10, m);
    assert!(w.pending_speed_zero);
}

#[test]
fn the_metamorph_expiry_reaps_its_creature() {
    let mut w = seeded();
    let m = w.mc2_book.ent[0] as usize;
    let c = w.g.new_event().expect("creature");
    w.g.ent[c].class64 = 5;
    w.g.ent[m].f146 = c as u16;
    w.player.metamorph = 19;
    w.mc2_cast_expire(4, m);
    assert_eq!(w.g.ent[c].flags & 0x400, 0x400);
    assert_eq!(w.g.ent[m].f146, 0);
    assert_eq!(w.player.metamorph, 0);
    assert_eq!(*w.g.sounds.last().unwrap(), (60, PLAYER_TARGET));
}

#[test]
fn the_fireball_launches_from_the_firing_hand() {
    let mut w = seeded();
    let m = w.mc2_book.ent[0] as usize;
    w.g.ent[m].f140 = 20;
    w.g.ent[m].f50 = 256;
    let req = w.mc2_spell_fire(0, m, pose(), muzzles());
    assert!(matches!(req, FireRequest::Done));
    let i = w.g.ent.iter().position(|e| e.class64 == 9).expect("the bolt");
    let e = &w.g.ent[i];
    assert_eq!(e.model65, 0);
    assert_eq!((e.x, e.y, e.z), (1000, 2000, 300), "the left muzzle");
    assert_eq!(e.id24, PLAYER_TARGET);
    assert_eq!((e.f68, e.f69), (10, 0));
    assert_eq!((e.f30, e.pitch32, e.f34, e.f36), (100, 2000, 100, 2000));
    assert_eq!(e.f126, 584, "384 + the carpet's 200");
    assert_eq!(e.f140, 20, "the token's mana rides the bolt");
    assert_eq!(e.f40, 0, "the XP back-ref");
    assert_eq!(e.type86, 42, "the fireball's star sprite");
    assert_eq!(*w.g.sounds.last().unwrap(), (9, PLAYER_TARGET));
}

#[test]
fn the_two_bolt_lightning_fans_and_cross_links() {
    let mut rows = vec![SpellRow { byte_0: 3, tiers: [sub(0, 0); 3] }; 8];
    rows[7] = SpellRow { byte_0: 3, tiers: [sub(2, 500), sub(2, 500), sub(2, 500)] };
    let mut w = world_with(rows, Vec::new());
    w.mc2_seed_default_spells();
    let m = w.mc2_book.ent[0] as usize;
    let req = w.mc2_spell_fire(7, m, pose(), muzzles());
    assert!(matches!(req, FireRequest::Done));
    let bolts: Vec<usize> = (0..w.g.ent.len()).filter(|&j| w.g.ent[j].class64 == 9).collect();
    assert_eq!(bolts.len(), 2);
    let (a, b) = (bolts[0], bolts[1]);
    let yaws = [w.g.ent[a].f30, w.g.ent[b].f30];
    assert!(yaws.contains(&213) && yaws.contains(&(100 + 2048 - 113)), "113 either side of the heading");
    assert_eq!(w.g.ent[a].f52, b as u16);
    assert_eq!(w.g.ent[b].f52, a as u16);
    assert_eq!(w.g.ent[a].model65, 12);
    assert_eq!(w.g.ent[a].f44, 500, "the tier payload");
    let n = w.g.sounds.len();
    assert_eq!(&w.g.sounds[n - 2..], &[(9, PLAYER_TARGET), (9, PLAYER_TARGET)]);
}

#[test]
fn the_shield_first_tick_switches_the_channel_and_awards_xp() {
    let mut w = seeded();
    let m = w.mc2_book.ent[0] as usize;
    let req = w.mc2_spell_fire(6, m, pose(), muzzles());
    assert!(matches!(req, FireRequest::Done));
    assert!(w.player.shield);
    assert_eq!(w.mc2_book.xp_vol[6], 1);
}

#[test]
fn the_speed_cast_latches_the_direction_and_factor() {
    let mut rows = vec![SpellRow { byte_0: 3, tiers: [sub(0, 0); 3] }; 4];
    rows[3] = SpellRow { byte_0: 3, tiers: [sub(0, 3), sub(0, 3), sub(0, 3)] };
    let mut w = world_with(rows, Vec::new());
    w.mc2_seed_default_spells();
    let m = w.mc2_book.ent[0] as usize;
    let mut p = pose();
    p.speed = -40;
    w.mc2_spell_fire(3, m, p, muzzles());
    assert_eq!(w.player.accel, -1, "reversing");
    assert!(w.player.accel_held);
    assert_eq!(w.player.accel_mc2_factor, 3);
    assert_eq!(*w.g.sounds.last().unwrap(), (19, PLAYER_TARGET));
}

#[test]
fn the_castle_cast_asks_the_chassis() {
    let mut w = seeded();
    let m = w.mc2_book.ent[0] as usize;
    let n = w.g.sounds.len();
    let req = w.mc2_spell_fire(2, m, pose(), muzzles());
    assert!(matches!(req, FireRequest::CastCastle));
    assert_eq!(w.g.sounds.len(), n);
    let req = w.mc2_spell_fire(4, m, pose(), muzzles());
    assert!(matches!(req, FireRequest::Metamorph(0)));
}

#[test]
fn the_duel_cast_leaves_its_tether() {
    let mut w = seeded();
    let m = w.mc2_book.ent[0] as usize;
    w.mc2_book.sel[14] = 2;
    w.mc2_spell_fire(14, m, pose(), muzzles());
    let t = w.g.ent.iter().position(|e| e.class64 == 10).expect("the tether");
    let e = &w.g.ent[t];
    assert_eq!((e.model65, e.tick70, e.max_life, e.act_life, e.f44, e.f71), (26, 26, 8, 8, 200, 2));
    assert_eq!((e.x, e.y, e.z), (100 << 8, 100 << 8, 3200));
    assert_eq!(e.type86, 284);
    assert_eq!(*w.g.sounds.last().unwrap(), (9, PLAYER_TARGET));
}

#[test]
fn the_metamorph_bind_makes_the_pose_puppet() {
    let mut w = seeded();
    let m = w.mc2_book.ent[0] as usize;
    let s = w.g.new_event().expect("creature");
    w.g.ent[s].class64 = 5;
    w.mc2_metamorph_bind(m, s, 19);
    let e = &w.g.ent[s];
    assert_eq!((e.site_z, e.tick70, e.id24, e.f26), (12, 159, PLAYER_TARGET, 0));
    assert_eq!(w.g.ent[m].f146, s as u16);
    assert_eq!(w.player.metamorph, 19);
    assert_eq!(w.mc2_book.xp_vol[4], 1);
    assert_eq!(*w.g.sounds.last().unwrap(), (60, PLAYER_TARGET));
}

fn tiered_row(hint: i16) -> SpellRow {
    let mut t = [sub(0, 0); 3];
    for (k, x) in [0, 100, 200].iter().enumerate() {
        t[k].xpos1 = *x;
        t[k].hint_text = hint + k as i16;
    }
    SpellRow { byte_0: 3, tiers: t }
}

fn lang_world() -> World {
    let mut w = world_with(vec![tiered_row(1); 6], Vec::new());
    w.lang = vec!["zero".to_string(), "one".to_string(), "two".to_string(), "three".to_string()];
    w
}

#[test]
fn a_spell_without_data_has_no_name() {
    let mut w = lang_world();
    assert_eq!(w.mc2_spell_name(1, 1), "two", "the tier's own hint text");
    assert_eq!(w.mc2_spell_name(1, 9), "three", "tiers beyond the third read the third");
    assert_eq!(w.mc2_spell_name(20, 0), "", "no data row: empty, not string 0");
    w.g.assets.spells.clear();
    assert_eq!(w.mc2_spell_name(0, 0), "");
}

#[test]
fn the_plausible_grant_learns_levels_and_stays_silent() {
    let mut w = lang_world();
    let sounds = w.g.sounds.len();
    w.mc2_grant_plausible(&[(3, 150), (4, -5), (30, 999)]);
    assert_ne!(w.mc2_book.ent[3], 0, "learned");
    assert_eq!(w.mc2_book.xp_bank[3], 150);
    assert_eq!(w.mc2_book.levels[3], 1, "150 reaches tier 1 (100) but not tier 2 (200)");
    assert_ne!(w.mc2_book.ent[4], 0);
    assert_eq!((w.mc2_book.xp_bank[4], w.mc2_book.levels[4]), (0, 0), "negative XP banks as 0");
    assert!(w.notification.is_none(), "no level-up toast");
    assert_eq!(w.g.sounds.len(), sounds, "no sound");
}

#[test]
fn the_selector_carry_rewires_each_learned_token() {
    let mut w = lang_world();
    w.mc2_grant_plausible(&[(3, 250)]);
    let m = w.mc2_book.ent[3] as usize;
    let mut sel = [0u8; 26];
    sel[3] = 2;
    w.mc2_install_selector_carry(&sel, &[0; 26], -1, -1);
    assert_eq!(w.mc2_book.sel[3], 2);
    assert_eq!(w.g.ent[m].f71, 2, "the token wired to the carried tier");
    w.g.ent[m].f26 = 5;
    sel[3] = 1;
    w.mc2_install_selector_carry(&sel, &[0; 26], -1, -1);
    assert_eq!(w.g.ent[m].f44, 2, "mid-cast: deferred as tier + 1");
}

#[test]
fn selecting_a_learned_spell_toasts_its_tier_in_red() {
    let mut w = lang_world();
    w.mc2_grant_plausible(&[(3, 250)]);
    let levels = w.mc2_book.levels;
    w.mc2_select_spell(3, 1, 1);
    let n = w.notification.as_ref().expect("toast");
    assert_eq!(n.text, "two");
    assert_eq!(n.color, [255, 0, 0]);
    assert_eq!(w.mc2_book.levels, levels);
    assert_eq!(w.mc2_book.right, 3);
    assert_eq!(w.g.sounds.last(), Some(&(14u8, PLAYER_TARGET)));
    let mut w = lang_world();
    let sounds = w.g.sounds.len();
    w.mc2_select_spell(30, 0, 0);
    assert_eq!(w.mc2_book.left, -1);
    assert!(w.notification.is_none());
    assert_eq!(w.g.sounds.len(), sounds);
    w.mc2_select_spell(5, 0, 0);
    assert!(w.notification.is_none(), "an unlearned spell is ignored");
}
