use mgc_sim::mc1::rivals::{
    AiState, Mc1Behavior, Mc1SpellCost, Rival, RivalConfig, HATE_NEUTRAL, HATE_RESPAWN, RIVAL_NAMES,
};
use mgc_sim::pool::{FeatureAssets, Gen, Planes, PLAYER_TARGET};
use mgc_sim::world::{GameId, World};

fn flat_world() -> World {
    let planes = Planes {
        height: vec![100; 0x10000],
        tile_type: vec![5; 0x10000],
        angle: vec![5; 0x10000],
        ceiling: Vec::new(),
    };
    let assets = FeatureAssets {
        build_tab: Vec::new(),
        build_dat: Vec::new(),
        spells: Vec::new(),
        mc2_sprite_ext: Vec::new(),
        behavior: Vec::new(),
        auto_flat: Vec::new(),
        bldg_flags: Vec::new(),
    };
    let mut w = World::new(Gen::new(planes, assets), GameId::Mc1);
    w.start_markers[0] = Some((120, 120));
    w.mc1_castle_cap = [5000, 10000, 20000, 40000, 80000, 160000, 320000, 640000];
    w
}

fn config(book_spells: &[usize], aggression: u8, tempo: u8, castle_level: u8) -> RivalConfig {
    let mut book = [false; 24];
    for &s in book_spells {
        book[s] = true;
    }
    RivalConfig { aggression, accuracy: 255, tempo, castle_level, book, allowed: book }
}

/// One rival (slot 1) with POSSESS in its book, the way the original's
/// possess fixture wires it.
fn possess_world() -> World {
    let mut w = flat_world();
    let mut cfgs: [Option<RivalConfig>; 8] = Default::default();
    cfgs[1] = Some(config(&[3], 200, 255, 0));
    w.set_wizards(&cfgs, 2);
    w
}

#[test]
fn the_war_threshold_is_flat_50000() {
    let mut w = possess_world();
    let ri = 0;
    w.rivals[ri].hate[0] = 49_999;
    w.rival_war_check(ri, 0);
    assert!(!w.rivals[ri].war[0], "49,999 is under the threshold");
    w.rivals[ri].hate[0] = 50_000;
    w.rival_war_check(ri, 0);
    assert!(!w.rivals[ri].war[0], "the compare is strict: exactly 50,000 does not latch");
    w.rivals[ri].hate[0] = 50_001;
    w.rival_war_check(ri, 0);
    assert!(w.rivals[ri].war[0], "the first crossing above 50,000 latches");
}

#[test]
fn war_check_ignores_self_and_out_of_range_shooters() {
    let mut w = possess_world();
    w.rivals[0].hate[1] = 60_000;
    w.rival_war_check(0, 1);
    assert!(!w.rivals[0].war[1], "a rival never goes to war with itself");
    w.rival_war_check(0, 8);
    assert!(w.rivals[0].war.iter().all(|&b| !b));
}

#[test]
fn ai_state_bytes_round_trip() {
    let states = [
        AiState::Fresh,
        AiState::Upgrade,
        AiState::Build,
        AiState::Possess,
        AiState::RaidCastle,
        AiState::AttackWizard,
        AiState::RaidBalloon,
        AiState::HuntMana,
        AiState::Home,
        AiState::Cruise,
    ];
    for s in states {
        assert_eq!(AiState::from_retail(s.to_retail()), s);
    }
    assert_eq!(AiState::Home.to_retail(), 0xB);
    assert_eq!(AiState::HuntMana.to_retail(), 0xD);
    for cut in [2u8, 4, 5, 10, 14, 255] {
        assert_eq!(AiState::from_retail(cut), AiState::Fresh);
        assert_eq!(AiState::from_retail(cut).to_retail(), 0);
    }
    assert_eq!(AiState::RaidBalloon.name(), "RaidBalloon");
}

#[test]
fn rival_names_by_slot() {
    assert_eq!(RIVAL_NAMES[0], "Zanzamar");
    assert_eq!(RIVAL_NAMES[1], "Vodor");
    assert_eq!(RIVAL_NAMES[7], "Scheherazade");
}

#[test]
fn a_fresh_rival_starts_neutral_with_the_castle_stagger() {
    let cfg = config(&[0, 16], 115, 200, 0);
    let r = Rival::new(3, 42, &cfg);
    assert_eq!(r.slot, 3);
    assert_eq!(r.ent, 42);
    assert_eq!(r.cooldown[16], 12, "4 ticks per player slot");
    assert_eq!(r.cooldown[15], 0);
    assert_eq!((r.mana, r.mana_max), (1000, 1000));
    assert_eq!(r.grace, 100);
    assert!(r.hate.iter().all(|&h| h == HATE_NEUTRAL));
    assert!(r.known.iter().all(|&k| !k), "the book is minted by the spawn, not the record");
    assert_eq!(r.state, AiState::Fresh);
    assert_eq!((r.agg, r.acc, r.tempo), (115, 255, 200));
}

#[test]
fn think_period_tracks_tempo() {
    let mut r = Rival::new(1, 5, &config(&[], 0, 0, 0));
    assert_eq!(r.think_period(), 64);
    r.tempo = 200;
    assert_eq!(r.think_period(), 14);
    r.tempo = 255;
    assert_eq!(r.think_period(), 1, "64 - 63 = 1");
    r.tempo = 1000;
    assert_eq!(r.think_period(), 1, "never below one tick");
}

#[test]
fn acquisition_list_appends_at_the_first_hole() {
    let mut r = Rival::new(1, 5, &config(&[], 0, 0, 0));
    r.acq[0] = 7;
    r.acq[2] = 9;
    r.acq_push(300);
    assert_eq!(&r.acq[..4], &[7, 300, 9, 0]);
    for k in 0..24 {
        r.acq[k] = 1;
    }
    r.acq_push(301);
    assert!(r.acq.iter().all(|&a| a == 1), "a full list drops the append");
}

#[test]
fn hate_regresses_toward_the_baseline() {
    let mut w = possess_world();
    let ri = 0;
    w.rivals[ri].hate[0] = 20_000;
    w.rivals[ri].hate[2] = 30_000;
    w.rivals[ri].hate[3] = 30_000;
    w.rivals[ri].war[3] = true;
    w.rivals[ri].hate[4] = HATE_NEUTRAL - 10;
    w.rivals[ri].hate[5] = HATE_NEUTRAL + 20;
    w.rival_hate_decay(ri);
    assert_eq!(w.rivals[ri].hate[0], 20_201, "below rises by agg + 1");
    assert_eq!(w.rivals[ri].hate[2], 29_944, "above falls by 256 - agg");
    assert_eq!(w.rivals[ri].hate[3], 30_000, "war pins a raised hate");
    assert_eq!(w.rivals[ri].hate[4], HATE_NEUTRAL, "capped at the baseline");
    assert_eq!(w.rivals[ri].hate[5], HATE_NEUTRAL, "floored at the baseline");
}

#[test]
fn add_hate_saturates_and_skips_self() {
    let mut w = possess_world();
    w.rivals[0].hate[0] = 65_000;
    w.rival_add_hate(0, 0, 3_000);
    assert_eq!(w.rivals[0].hate[0], u16::MAX);
    let before = w.rivals[0].hate[1];
    w.rival_add_hate(0, 1, 500);
    assert_eq!(w.rivals[0].hate[1], before, "no hate toward itself");
}

#[test]
fn hate_gate_scales_with_the_target_wealth() {
    let mut w = possess_world();
    w.rivals[0].hate[0] = 45_000;
    // agg 200: 50000 - (100000/10)*200/255 = 50000 - 7843 = 42157.
    assert!(w.hate_over(0, 0, 100_000));
    assert!(!w.hate_over(0, 0, 0), "a broke target keeps the full 50000");
}

#[test]
fn set_wizards_spawns_configured_slots_at_their_markers() {
    let mut w = flat_world();
    w.start_markers[2] = Some((40, 50));
    let mut cfgs: [Option<RivalConfig>; 8] = Default::default();
    cfgs[1] = Some(config(&[0, 3], 100, 128, 0));
    cfgs[2] = Some(config(&[7], 150, 128, 0));
    cfgs[5] = Some(config(&[0], 150, 128, 0));
    w.set_wizards(&cfgs, 4);
    assert_eq!(w.rivals.len(), 2, "slot 5 is beyond the player count");
    assert_eq!((w.rivals[0].slot, w.rivals[1].slot), (1, 2));
    let r1 = &w.rivals[0];
    assert!(r1.known[0] && r1.known[3] && !r1.known[7]);
    assert!(r1.owned[0] != 0 && r1.owned[3] != 0);
    let tok = r1.owned[3] as usize;
    assert_eq!((w.g.ent[tok].class64, w.g.ent[tok].model65), (12, 3));
    assert_eq!(w.g.ent[tok].f144, r1.ent, "the token is tagged with its wizard");
    assert_eq!(w.g.ent[tok].flags & 1, 1, "owned");
    let c1 = &w.g.ent[r1.ent as usize];
    assert_eq!((c1.class64, c1.model65), (3, 1));
    assert_eq!((c1.x, c1.y), ((120 << 8) + 128, (120 << 8) + 128), "slot 1 falls back to the human's marker");
    assert_eq!(c1.type86, 273);
    assert_eq!(c1.f140, 1000);
    let c2 = &w.g.ent[w.rivals[1].ent as usize];
    assert_eq!((c2.x, c2.y), ((40 << 8) + 128, (50 << 8) + 128));
    assert_eq!(c2.z, 3200 + 256, "256 above the ground");
    assert_eq!(w.g.rival_ents[1], w.rivals[0].ent);
    assert_eq!(w.g.rival_ents[2], w.rivals[1].ent);
    assert_eq!(w.rivals[0].hate[2], HATE_RESPAWN, "everyone hates a newcomer");
    assert_eq!(w.rivals[1].hate[1], HATE_NEUTRAL, "the newcomer hates no one yet");
    assert!(w.entities_dirty);
}

#[test]
fn set_wizards_without_any_marker_spawns_nothing() {
    let mut w = flat_world();
    w.start_markers[0] = None;
    let mut cfgs: [Option<RivalConfig>; 8] = Default::default();
    cfgs[1] = Some(config(&[0], 100, 128, 0));
    w.set_wizards(&cfgs, 8);
    assert!(w.rivals.is_empty());
}

#[test]
fn a_starting_castle_spawns_full_at_the_wizard() {
    let mut w = flat_world();
    let mut cfgs: [Option<RivalConfig>; 8] = Default::default();
    cfgs[3] = Some(config(&[16], 100, 128, 2));
    w.set_wizards(&cfgs, 4);
    assert_eq!(w.rivals.len(), 1);
    let me = w.rivals[0].ent;
    let c = w.rival_castle(me).expect("the starting castle");
    let e = &w.g.ent[c];
    assert_eq!((e.class64, e.model65), (3, 2));
    assert_eq!(e.f26, 1, "castle_level 2 is level 1");
    assert_eq!((e.f136, e.f140), (10000, 10000), "full at the level's capacity");
    assert_eq!(e.type86, 180, "the slot-3 team flag");
    assert_eq!(e.z, 3200, "on the ground");
    assert!(w.g.sounds.contains(&(30, c as u16)));
}

#[test]
fn debug_dump_reports_each_rival() {
    let w = possess_world();
    let d = w.debug_rival_ai();
    assert_eq!(d.len(), 1);
    assert_eq!(d[0].slot, 1);
    assert_eq!(d[0].state, "Fresh");
    assert_eq!(d[0].known, vec![3]);
    assert_eq!(d[0].owned, vec![3]);
    assert_eq!(d[0].allowed, vec![3]);
    assert!(!d[0].has_offense);
    assert_eq!((d[0].mana, d[0].mana_max), (1000, 1000));
    assert_eq!(d[0].castle_stored, None);
}

#[test]
fn target_signatures_detect_a_recycled_slot() {
    let mut w = possess_world();
    let me = w.rivals[0].ent as usize;
    assert_eq!(w.target_sig(0), 0);
    assert_eq!(w.target_sig(PLAYER_TARGET), PLAYER_TARGET);
    let sig = w.target_sig(me as u16);
    assert_eq!(sig, (me as u16) + 1 + (3 << 7), "team (its own slot) + model + class·128");
    assert!(w.target_alive(me as u16, sig));
    w.g.ent[me].model65 = 2;
    assert!(!w.target_alive(me as u16, sig), "the signature moved");
    assert!(w.target_alive(PLAYER_TARGET, PLAYER_TARGET));
    assert!(!w.target_alive(0, 0), "no target is never alive");
}

fn duel_world() -> World {
    let mut w = flat_world();
    w.start_markers[2] = Some((130, 120));
    let mut cfgs: [Option<RivalConfig>; 8] = Default::default();
    cfgs[1] = Some(config(&[0], 200, 128, 0));
    cfgs[2] = Some(config(&[0], 200, 128, 0));
    w.set_wizards(&cfgs, 3);
    w.mc1_behavior = vec![Mc1Behavior { v_14: -4, v_28: 4000 }; 4];
    w.wiz_chain = vec![w.rivals[0].ent, w.rivals[1].ent];
    w
}

#[test]
fn a_war_flag_picks_rangelessly() {
    let mut w = duel_world();
    let far = w.rivals[1].ent as usize;
    w.g.ent[far].x = 0;
    w.g.ent[far].y = 0;
    w.rivals[0].war[2] = true;
    assert!(w.rival_pick_wizard_target(0));
    assert_eq!(w.rivals[0].state, AiState::AttackWizard);
    assert_eq!(w.rivals[0].target, far as u16);
    assert_eq!(w.g.ent[w.rivals[0].ent as usize].f146, far as u16, "the pick stamps the carpet's target lane");
}

#[test]
fn the_election_winner_faces_the_range_gate() {
    let mut w = duel_world();
    let other = w.rivals[1].ent;
    w.rivals[0].hate[2] = 50_000;
    // 10 tiles apart = 2560 units, inside (4000 + 10).
    assert!(w.rival_pick_wizard_target(0));
    assert_eq!(w.rivals[0].target, other);
    let mut w = duel_world();
    w.rivals[0].hate[2] = 50_000;
    w.mc1_behavior = vec![Mc1Behavior { v_14: -4, v_28: 2000 }; 4];
    assert!(!w.rival_pick_wizard_target(0), "2560 is outside 2010");
    assert_eq!(w.rivals[0].state, AiState::Fresh, "no pick changes nothing");
    let mut w = duel_world();
    assert!(!w.rival_pick_wizard_target(0), "neutral hate wants no one");
}

#[test]
fn an_unbound_castle_builder_does_not_hunt() {
    let mut w = flat_world();
    w.start_markers[2] = Some((130, 120));
    let mut cfgs: [Option<RivalConfig>; 8] = Default::default();
    cfgs[1] = Some(config(&[16], 200, 128, 0));
    cfgs[2] = Some(config(&[0], 200, 128, 0));
    w.set_wizards(&cfgs, 3);
    w.mc1_behavior = vec![Mc1Behavior { v_14: -4, v_28: 4000 }; 4];
    w.wiz_chain = vec![w.rivals[0].ent, w.rivals[1].ent];
    w.rivals[0].war[2] = true;
    assert!(!w.rival_pick_wizard_target(0));
}

fn pool_record(w: &mut World, model: u8, owner: u16, x: u16, y: u16, mana: i32) -> usize {
    let j = w.g.new_event().expect("slot");
    let e = &mut w.g.ent[j];
    e.class64 = 3;
    e.model65 = model;
    e.id24 = owner;
    e.x = x;
    e.y = y;
    e.f140 = mana;
    j
}

#[test]
fn a_hated_undefended_castle_in_range_is_raided() {
    let mut w = duel_world();
    let me = w.rivals[0].ent as usize;
    let foe = w.rivals[1].ent;
    let (px, py) = (w.g.ent[me].x, w.g.ent[me].y);
    w.g.ent[foe as usize].x = px.wrapping_add(20_000);
    let castle = pool_record(&mut w, 2, foe, px.wrapping_add(1000), py, 100);
    w.wiz_chain.push(castle as u16);
    w.rivals[0].hate[2] = 50_001;
    assert!(w.rival_pick_castle_target(0, me));
    assert_eq!(w.rivals[0].state, AiState::RaidCastle);
    assert_eq!(w.rivals[0].target, castle as u16);
}

#[test]
fn a_defended_castle_of_a_hated_owner_is_left_alone() {
    let mut w = duel_world();
    let me = w.rivals[0].ent as usize;
    let foe = w.rivals[1].ent;
    let (fx, fy) = (w.g.ent[foe as usize].x, w.g.ent[foe as usize].y);
    w.g.ent[foe as usize].tick70 = 1;
    let castle = pool_record(&mut w, 2, foe, fx.wrapping_add(500), fy, 100);
    w.wiz_chain.push(castle as u16);
    w.rivals[0].hate[2] = 50_001;
    assert!(!w.rival_pick_castle_target(0, me), "the owner stands within 7680");
    assert_eq!(w.rivals[0].state, AiState::Fresh);
}

#[test]
fn a_poorer_castle_is_raided_without_hate() {
    let mut w = duel_world();
    let me = w.rivals[0].ent as usize;
    let my_ent = w.rivals[0].ent;
    let foe = w.rivals[1].ent;
    let (px, py) = (w.g.ent[me].x, w.g.ent[me].y);
    let mine = pool_record(&mut w, 2, my_ent, px, py.wrapping_add(3000), 50_000);
    let theirs = pool_record(&mut w, 2, foe, px.wrapping_add(1500), py, 0);
    w.wiz_chain.push(mine as u16);
    w.wiz_chain.push(theirs as u16);
    // 0 + 640 x (255 - 200) = 35,200 < 50,000 stored at home.
    assert!(w.rival_pick_castle_target(0, me));
    assert_eq!(w.rivals[0].target, theirs as u16);
    let mut w = duel_world();
    let me = w.rivals[0].ent as usize;
    let theirs = pool_record(&mut w, 2, foe, px.wrapping_add(1500), py, 0);
    w.wiz_chain.push(theirs as u16);
    assert!(!w.rival_pick_castle_target(0, me), "nothing stored at home: not poorer");
}

#[test]
fn a_laden_hated_balloon_in_range_is_raided() {
    let mut w = duel_world();
    let me = w.rivals[0].ent as usize;
    let foe = w.rivals[1].ent;
    let (px, py) = (w.g.ent[me].x, w.g.ent[me].y);
    let light = pool_record(&mut w, 3, foe, px.wrapping_add(500), py, 750);
    let laden = pool_record(&mut w, 3, foe, px.wrapping_add(1500), py, 751);
    w.wiz_chain.push(light as u16);
    w.wiz_chain.push(laden as u16);
    w.rivals[0].hate[2] = 50_001;
    assert!(w.rival_pick_balloon_target(0, me));
    assert_eq!(w.rivals[0].state, AiState::RaidBalloon);
    assert_eq!(w.rivals[0].target, laden as u16, "750 is not over 10 x (275 - 200)");
    let mut w = duel_world();
    let laden = pool_record(&mut w, 3, foe, px.wrapping_add(1500), py, 751);
    w.wiz_chain.push(laden as u16);
    assert!(!w.rival_pick_balloon_target(0, me), "neutral hate: no raid");
}

#[test]
fn the_mana_hunt_takes_the_nearest_laden_creature() {
    let mut w = duel_world();
    let me = w.rivals[0].ent as usize;
    let (px, py) = (w.g.ent[me].x, w.g.ent[me].y);
    let empty = pool_record(&mut w, 0, 99, px.wrapping_add(100), py, 0);
    let far = pool_record(&mut w, 0, 99, px.wrapping_add(9000), py, 10);
    let near = pool_record(&mut w, 0, 99, px.wrapping_add(3000), py, 10);
    w.mob_chain = vec![empty as u16, far as u16, near as u16];
    w.rivals[0].owned = [0; 24];
    assert!(!w.rival_pick_mana_target(0, me), "no attack spell: no hunt");
    w.rivals[0].owned[0] = 1;
    assert!(w.rival_pick_mana_target(0, me));
    assert_eq!(w.rivals[0].state, AiState::HuntMana);
    assert_eq!(w.rivals[0].target, near as u16, "no range cap, nearest laden");
}

#[test]
fn stolen_mana_is_credited_up_to_the_ceiling() {
    let mut w = duel_world();
    let foe = w.rivals[1].ent;
    w.rivals[1].mana = 900;
    w.rivals[1].mana_max = 1000;
    w.credit_wizard_mana(foe, 50);
    assert_eq!(w.rivals[1].mana, 950);
    w.credit_wizard_mana(foe, 500);
    assert_eq!(w.rivals[1].mana, 1000, "capped at the ceiling");
    w.player.mana = 10;
    w.player.mana_max = 100;
    w.credit_wizard_mana(PLAYER_TARGET, 20);
    assert_eq!(w.player.mana, 30);
    let before = w.rivals[0].mana;
    w.credit_wizard_mana(7777, 20);
    assert_eq!(w.rivals[0].mana, before, "no wizard: nothing credited");
}

#[test]
fn a_mailbox_source_resolves_to_its_wizard_slot() {
    let mut w = duel_world();
    let foe = w.rivals[1].ent;
    assert_eq!(w.owner_slot_of_source(PLAYER_TARGET), Some(0));
    assert_eq!(w.owner_slot_of_source(foe), Some(2), "a carpet is its own owner");
    let bolt = pool_record(&mut w, 9, foe, 0, 0, 0);
    w.g.ent[bolt].class64 = 9;
    assert_eq!(w.owner_slot_of_source(bolt as u16), Some(2), "a projectile answers for its owner tag");
    let stray = pool_record(&mut w, 9, 4444, 0, 0, 0);
    assert_eq!(w.owner_slot_of_source(stray as u16), None);
    assert_eq!(w.owner_slot_of_source(60_000), None, "beyond the pool");
}

#[test]
fn the_token_gate_reads_life_store_and_purse() {
    let mut w = duel_world();
    w.mc1_spells = vec![Mc1SpellCost { castle_req: 0, possess_mana: 300, count: 1 }; 24];
    w.mc1_spells[5].castle_req = 2000;
    w.rivals[0].mana = 299;
    assert!(w.rival_token_gate(0, 1, false), "mid-burst ticks pass");
    assert!(!w.rival_token_gate(0, 1, true), "a full tick needs the cost");
    w.rivals[0].mana = 300;
    assert!(w.rival_token_gate(0, 1, true));
    assert!(!w.rival_token_gate(0, 5, false), "no castle to hold the 2000 store");
    let me = w.rivals[0].ent;
    let (px, py) = (w.g.ent[me as usize].x, w.g.ent[me as usize].y);
    let c = pool_record(&mut w, 2, me, px, py, 2000);
    assert_eq!(w.rival_castle(me), Some(c));
    assert!(w.rival_token_gate(0, 5, false), "the castle holds 2000");
    w.g.ent[me as usize].act_life = -1;
    assert!(!w.rival_token_gate(0, 1, false), "a dying wizard casts nothing");
}

#[test]
fn the_castle_price_follows_the_live_token() {
    let mut w = duel_world();
    w.mc1_spells = vec![Mc1SpellCost { castle_req: 0, possess_mana: 1000, count: 1 }; 24];
    w.rivals[0].owned[16] = 0;
    assert_eq!(w.rival_castle_price(0), 1000, "no token: the base cost");
    let me = w.rivals[0].ent;
    let t = pool_record(&mut w, 16, me, 0, 0, 0);
    w.g.ent[t].class64 = 12;
    w.g.ent[t].f136 = 5000;
    w.rivals[0].owned[16] = t as u16;
    assert_eq!(w.rival_castle_price(0), 5000);
    w.g.ent[t].flags |= 0x400;
    assert_eq!(w.rival_castle_price(0), 1000, "a reaped token prices at the base");
}

#[test]
fn a_rival_token_must_be_bound_and_standing() {
    let mut w = duel_world();
    w.manifest_base = 100;
    let me = w.rivals[0].ent;
    let t = pool_record(&mut w, 4, me, 0, 0, 0);
    w.g.ent[t].class64 = 12;
    w.g.ent[t].f144 = me;
    w.g.ent[t].tick70 = 12;
    w.rivals[0].owned[4] = t as u16;
    assert_eq!(w.rival_token(0, 4), Some(t), "the imported phase-0 state 3 x 4");
    w.g.ent[t].tick70 = 5;
    assert_eq!(w.rival_token(0, 4), None, "neither encoding");
    w.g.ent[t].tick70 = 104;
    assert_eq!(w.rival_token(0, 4), Some(t), "the native state base + 4");
    w.g.ent[t].tick70 = 12;
    w.g.ent[t].f144 = me.wrapping_add(1000);
    assert_eq!(w.rival_token(0, 4), None, "bound to someone else");
}

#[test]
fn a_jar_arms_each_reached_rival_once() {
    let mut w = duel_world();
    w.g.ent[w.rivals[0].ent as usize].model65 = 1;
    w.g.ent[w.rivals[1].ent as usize].model65 = 1;
    w.rivals[0].allowed[6] = true;
    w.rivals[0].owned[6] = 0;
    w.rivals[0].learn[6] = 0;
    w.rivals[1].allowed[6] = false;
    w.wiz_chain = vec![w.rivals[0].ent, w.rivals[1].ent, w.rivals[0].ent];
    w.rival_learn_arm(6);
    assert_eq!(w.rivals[0].learn[6], 200);
    assert_eq!(w.rivals[1].learn[6], 0, "the book does not allow it");
    w.rivals[0].learn[6] = 17;
    w.rival_learn_arm(6);
    assert_eq!(w.rivals[0].learn[6], 17, "a running countdown is not re-armed");
    w.rivals[0].learn[6] = 0;
    w.rivals[0].eliminated = true;
    w.rival_learn_arm(6);
    assert_eq!(w.rivals[0].learn[6], 0, "an eliminated rival is not reached");
}

#[test]
fn the_hover_nudge_steps_by_the_row_v14() {
    let mut w = duel_world();
    let i = w.rivals[0].ent as usize;
    w.g.ent[i].z = 1514;
    w.rival_hover_toward(i, 1000);
    assert_eq!(w.g.ent[i].z, 1510, "above the target: v_14 = -4 sinks");
    w.g.ent[i].z = 500;
    w.rival_hover_toward(i, 1000);
    assert_eq!(w.g.ent[i].z, 504, "below: climbs");
    w.rival_hover_toward(i, 504);
    assert_eq!(w.g.ent[i].z, 504, "level: stays");
}

#[test]
fn facing_sets_the_desired_yaw_only() {
    let mut w = duel_world();
    let i = w.rivals[0].ent as usize;
    let (x, y) = (w.g.ent[i].x, w.g.ent[i].y);
    let yaw0 = w.g.ent[i].f30;
    w.rival_face_target(i, x.wrapping_add(1000), y, 0);
    assert_eq!(w.g.ent[i].f34, 512, "toward +x");
    w.rival_face_target(i, x, y.wrapping_sub(1000), 0);
    assert_eq!(w.g.ent[i].f34, 0, "toward -y");
    assert_eq!(w.g.ent[i].f30, yaw0);
}

#[test]
fn the_shadow_lanes_name_the_brain_registers() {
    let mut w = duel_world();
    w.rivals[0].vdes = 77;
    w.rivals[0].poverty = true;
    w.rivals[0].hate[3] = 123;
    w.rivals[0].war[2] = true;
    w.rivals[0].acq[0] = -5;
    let (scalars, arrays) = w.rivals[0].wiz_shadow_lanes();
    assert_eq!(scalars.len(), 12);
    assert_eq!(scalars[0], ("cmd_speed", 77));
    assert_eq!(scalars[9], ("poverty", 1));
    assert_eq!(scalars[7].0, "ai_state");
    assert_eq!(arrays.len(), 6);
    assert_eq!(arrays[0].0, "hate");
    assert_eq!(arrays[0].1.len(), 8);
    assert_eq!(arrays[0].1[3], 123);
    assert_eq!(arrays[1].1[2], 1);
    assert_eq!(arrays[5].0, "acq");
    assert_eq!(arrays[5].1[0], -5);
    assert_eq!(arrays[2].1.len(), 24);
}

#[test]
fn reanchoring_imports_the_brain_registers() {
    let mut w = duel_world();
    let i = w.rivals[0].ent as usize;
    w.g.ent[i].f146 = 42;
    w.g.ent[i].dest_x = 7;
    w.g.ent[i].dest_y = 9;
    let mut owned = [0u16; 24];
    owned[5] = 33;
    let mut acq = [0i32; 24];
    acq[0] = 33;
    let mut war = [0u16; 8];
    war[2] = 9;
    let mut hate = [HATE_NEUTRAL; 8];
    hate[2] = 60_000;
    w.reanchor_rival_ai(0, 0, 3, 1, &[1; 24], &[2; 24], &hate, &war, &owned, &acq, 5, 6, 777);
    let r = &w.rivals[0];
    assert_eq!(r.target, 42);
    assert_eq!(r.target_sig, 777, "the stored signature imports raw");
    assert_eq!(r.site, (7, 9));
    assert_eq!(r.burst, 3);
    assert!(r.poverty);
    assert!(r.war[2] && !r.war[1]);
    assert_eq!(r.hate[2], 60_000);
    assert_eq!(r.owned[5], 33);
    assert!(r.known[5], "an owned spell is known");
    assert_eq!(r.acq[0], 33);
    assert_eq!((r.life_rate, r.regen_stall), (5, 6));
    assert_eq!((r.cooldown[7], r.learn[7]), (1, 2));
    w.g.ent[i].f146 = PLAYER_TARGET;
    w.reanchor_rival_ai(0, 0, 0, 0, &[0; 24], &[0; 24], &hate, &war, &owned, &acq, 0, 0, 777);
    assert_eq!(w.rivals[0].target_sig, PLAYER_TARGET, "the human keeps his sentinel");
    assert!(!w.rivals[0].poverty);
}

fn scout_cand(sx: u16, sy: u16, k: i32) -> (u16, u16) {
    let cx0 = (sx as i16 / 16384) as i32;
    let cy0 = (sy as i16 / 16384) as i32;
    let bx = ((((cx0 + (k / 2) % 4) & 3) as u16) << 14) as u16;
    let by = ((((cy0 + k / 8) & 3) as u16) << 14) as u16;
    let off = if k % 2 == 1 { 0x1F00 } else { 0 };
    (bx.wrapping_add(off), by.wrapping_add(off))
}

#[test]
fn the_scout_takes_the_first_candidate_clear_of_foreign_castles() {
    let mut w = duel_world();
    let me = w.rivals[0].ent as usize;
    let foe = w.rivals[1].ent;
    let (sx, sy) = (w.g.ent[me].x, w.g.ent[me].y);
    w.g.ent[0].z = 77;
    assert!(w.rival_scout_site(0, me));
    let c0 = scout_cand(sx, sy, 0);
    assert_eq!(w.rivals[0].site, c0, "no castle: the home corner");
    assert_eq!((w.g.ent[me].dest_x, w.g.ent[me].dest_y, w.g.ent[me].site_z), (c0.0, c0.1, 77));
    assert_eq!((w.g.ent[0].x, w.g.ent[0].y), c0, "the scratch keeps the probe");

    let mut w = duel_world();
    let castle = pool_record(&mut w, 2, foe, c0.0, c0.1, 0);
    w.wiz_chain.push(castle as u16);
    assert!(w.rival_scout_site(0, me));
    let c2 = scout_cand(sx, sy, 2);
    assert_eq!(w.rivals[0].site, c2, "corner and inset are within 12288 of the castle");

    let mut w = duel_world();
    let my_ent = w.rivals[0].ent;
    let mine = pool_record(&mut w, 2, my_ent, c0.0, c0.1, 0);
    w.wiz_chain.push(mine as u16);
    assert!(w.rival_scout_site(0, me));
    assert_eq!(w.rivals[0].site, c0, "its own castle does not veto");
}

fn ball(w: &mut World, tag: u16, x: u16, y: u16) -> u16 {
    let j = pool_record(w, 39, 0, x, y, 1000);
    w.g.ent[j].class64 = 10;
    w.g.ent[j].f144 = tag;
    w.ball_chain.push(j as u16);
    j as u16
}

#[test]
fn the_ball_pick_scores_wild_own_hated_and_neutral_balls() {
    let mut w = duel_world();
    let me = w.rivals[0].ent;
    let foe = w.rivals[1].ent;
    let (px, py) = (w.g.ent[me as usize].x, w.g.ent[me as usize].y);
    w.human_pose = (px.wrapping_add(30_000), py.wrapping_add(30_000), 0);
    let _mine = ball(&mut w, me, px.wrapping_add(100), py);
    assert!(!w.rival_pick_ball_target(0, me as usize), "its own ball is skipped");
    assert_eq!(w.rivals[0].state, AiState::Fresh);
    let wild = ball(&mut w, 0, px.wrapping_add(3000), py);
    assert!(w.rival_pick_ball_target(0, me as usize));
    assert_eq!(w.rivals[0].state, AiState::Possess);
    assert_eq!(w.rivals[0].target, wild, "a wild ball scores from the carpet");

    // A hated wizard's ball scores from the register record (slot 0 when unbound).
    let mut w = duel_world();
    w.human_pose = (px.wrapping_add(30_000), py.wrapping_add(30_000), 0);
    let _wild = ball(&mut w, 0, px.wrapping_add(3000), py);
    let hated = ball(&mut w, foe, px.wrapping_add(9000), py);
    w.g.ent[0].x = px.wrapping_add(9000);
    w.g.ent[0].y = py;
    w.rivals[0].hate[2] = 50_001;
    assert!(w.rival_pick_ball_target(0, me as usize));
    assert_eq!(w.rivals[0].target, hated, "0 from the register beats 3000 from the carpet");

    // A neutral wizard's ball guarded by its owner's carpet is left.
    let mut w = duel_world();
    w.human_pose = (px.wrapping_add(30_000), py.wrapping_add(30_000), 0);
    let (fx, fy) = (w.g.ent[foe as usize].x, w.g.ent[foe as usize].y);
    let _guarded = ball(&mut w, foe, fx.wrapping_add(500), fy);
    assert!(!w.rival_pick_ball_target(0, me as usize), "the owner's carpet stands within 5120");
    // Unguarded once the carpet is far away.
    w.g.ent[foe as usize].x = fx.wrapping_add(20_000);
    assert!(w.rival_pick_ball_target(0, me as usize));
}

#[test]
fn the_scout_cell_is_signed_and_walks_the_scratch() {
    let mut w = possess_world();
    let ri = 0;
    let i = w.rivals[ri].ent as usize;
    let z = w.g.ent[i].z;
    w.g.move_relink(i, 65333, 65333, z);
    // The tick-top chain: the rival's own carpet only.
    w.wiz_chain = vec![i as u16];
    w.g.ent[0].z = 352;
    assert!(w.rival_scout_site(ri, i), "no foreign castles: first candidate wins");
    assert_eq!(w.rivals[ri].site, (0, 0), "i16 -203 / 16384 truncates to cell 0");
    let e = &w.g.ent[i];
    assert_eq!((e.dest_x, e.dest_y), (0, 0), "the accept stamps the destination");
    assert_eq!(e.site_z, 352, "the scratch record's unwritten z");
    assert_eq!((w.g.ent[0].x, w.g.ent[0].y), (0, 0), "the scratch keeps the last probed candidate");
}

#[test]
fn a_learning_countdown_runs_200_ticks_then_conjures_the_token() {
    let mut w = possess_world();
    let me = w.rivals[0].ent;
    w.rivals[0].learn[7] = 200;
    w.human_bucket_alive = true;
    for _ in 0..199 {
        w.rival_learn_tick(0);
    }
    assert_eq!(w.rivals[0].learn[7], 1, "one tick left");
    assert_eq!(w.rivals[0].owned[7], 0);
    w.rival_learn_tick(0);
    assert_eq!(w.rivals[0].learn[7], 0, "the countdown expired");
    assert!(w.rivals[0].known[7], "the spell is known");
    let tok = w.rivals[0].owned[7] as usize;
    assert_ne!(tok, 0, "a token is conjured");
    assert_eq!((w.g.ent[tok].class64, w.g.ent[tok].model65), (12, 7));
    assert_eq!(w.g.ent[tok].f144, me, "the token is the rival's own");
    assert!(w.rivals[0].acq.contains(&(tok as i32)), "appended to the acquisition list");
}

#[test]
fn the_learning_clock_stops_with_the_human_off_the_roster() {
    let mut w = possess_world();
    w.rivals[0].learn[7] = 5;
    w.human_bucket_alive = false;
    w.rival_learn_tick(0);
    assert_eq!(w.rivals[0].learn[7], 5, "the countdown freezes");
}

fn token_world() -> (World, usize) {
    let mut w = possess_world();
    w.mc1_spells = vec![Mc1SpellCost { castle_req: 0, possess_mana: 500, count: 101 }; 24];
    let m = w.g.new_event().expect("token slot");
    w.g.ent[m].class64 = 12;
    w.g.ent[m].f26 = 101;
    (w, m)
}

#[test]
fn a_full_rebound_token_publishes_the_bit_and_debits_the_cast() {
    let (mut w, m) = token_world();
    let me = w.rivals[0].ent as usize;
    w.rivals[0].mana_delta = 7;
    w.rival_rebound_token_tick(m, 0);
    assert_ne!(w.g.ent[me].flags & 0x8000, 0, "the rebound bit is up");
    assert_eq!(w.rivals[0].mana_delta, -500, "the full tick replaces a gain with the cost");
    assert_eq!(w.g.ent[m].f26, 100, "the counter steps down");
    w.rivals[0].mana_delta = 9;
    w.rival_rebound_token_tick(m, 0);
    assert_eq!(w.rivals[0].mana_delta, 0, "a later tick pins a gain to 0");
    assert_eq!(w.g.ent[m].f26, 99);
    w.g.ent[m].f26 = 0;
    w.rival_rebound_token_tick(m, 0);
    assert_eq!(w.g.ent[me].flags & 0x8000, 0, "an expired token clears the bit");
}

#[test]
fn a_refused_shield_token_drops_to_its_last_tick() {
    let (mut w, m) = token_world();
    let me = w.rivals[0].ent as usize;
    w.rivals[0].mana = 10;
    w.rival_shield_token_tick(m, 0);
    assert_eq!(w.g.ent[me].flags & 0x4000, 0, "no shield bit without the mana");
    assert_eq!(w.g.ent[m].f26, 0, "the refusal drops the counter to 1, then the step");
    w.rivals[0].mana = 1000;
    w.g.ent[m].f26 = 101;
    w.rival_shield_token_tick(m, 0);
    assert_ne!(w.g.ent[me].flags & 0x4000, 0, "the shield bit is up");
    assert_eq!(w.rivals[0].mana_delta, -500);
}
