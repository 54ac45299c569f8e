use std::collections::VecDeque;

use galaxy_force::audio::{AudioManager, MusicCommand};
use galaxy_force::death::{death_action, DeathAction};
use galaxy_force::enemy::{
    dies_on_contact, hp_for_kind, movement_for_kind, recycles_offscreen, visual_por_kind, Enemy,
    EnemyKind, Movement, WOBBLE_PERIOD,
};
use galaxy_force::flags::retain_flagged;
use galaxy_force::hud::{heart_states, kills_label, HeartState};
use galaxy_force::player::Player;
use galaxy_force::playing::{handle_enemy_bullet_player_collision, PlayingState, MAX_STAGE};
use galaxy_force::{INTERNAL_HEIGHT, INTERNAL_WIDTH, WINDOW_HEIGHT, WINDOW_WIDTH};

fn enemy(kind: EnemyKind, tag: u32) -> Enemy<u32> {
    Enemy::new(kind, tag)
}

fn wave(kinds: &[EnemyKind]) -> VecDeque<Enemy<u32>> {
    let mut w = VecDeque::new();
    for (i, k) in kinds.iter().enumerate() {
        w.push_back(enemy(*k, i as u32));
    }
    w
}

#[test]
fn window_is_twice_the_internal_resolution() {
    assert_eq!(INTERNAL_WIDTH, 256);
    assert_eq!(INTERNAL_HEIGHT, 350);
    assert_eq!(WINDOW_WIDTH, 2 * INTERNAL_WIDTH as i32);
    assert_eq!(WINDOW_HEIGHT, 2 * INTERNAL_HEIGHT as i32);
}

#[test]
fn hit_points_per_kind() {
    assert_eq!(hp_for_kind(EnemyKind::Normal), 1);
    assert_eq!(hp_for_kind(EnemyKind::Red), 2);
    assert_eq!(hp_for_kind(EnemyKind::MiniBoss), 8);
    assert_eq!(hp_for_kind(EnemyKind::Boss), 30);
}

#[test]
fn movement_and_contact_rules_per_kind() {
    assert_eq!(movement_for_kind(EnemyKind::Boss), Movement::Sweep);
    assert_eq!(movement_for_kind(EnemyKind::MiniBoss), Movement::Chase);
    assert_eq!(movement_for_kind(EnemyKind::Normal), Movement::Fall);
    assert_eq!(movement_for_kind(EnemyKind::Red), Movement::Fall);
    assert!(dies_on_contact(EnemyKind::Normal));
    assert!(dies_on_contact(EnemyKind::Red));
    assert!(!dies_on_contact(EnemyKind::MiniBoss));
    assert!(!dies_on_contact(EnemyKind::Boss));
    assert!(recycles_offscreen(EnemyKind::Normal));
    assert!(recycles_offscreen(EnemyKind::Red));
    assert!(!recycles_offscreen(EnemyKind::MiniBoss));
    assert!(!recycles_offscreen(EnemyKind::Boss));
}

#[test]
fn visual_picks_texture_and_sheet_of_kind() {
    let v = visual_por_kind(EnemyKind::Red, "n", "r", "m", "b");
    assert_eq!(v.texture, "r");
    assert_eq!((v.sheet.frame_w, v.sheet.frame_h, v.sheet.sheet_w, v.sheet.sheet_h), (16, 16, 32, 16));
    let v = visual_por_kind(EnemyKind::Boss, "n", "r", "m", "b");
    assert_eq!(v.texture, "b");
    assert_eq!((v.sheet.frame_w, v.sheet.frame_h, v.sheet.sheet_w, v.sheet.sheet_h), (32, 32, 128, 32));
    assert_eq!(visual_por_kind(EnemyKind::Normal, 1, 2, 3, 4).texture, 1);
    assert_eq!(visual_por_kind(EnemyKind::MiniBoss, 1, 2, 3, 4).texture, 3);
}

#[test]
fn new_enemy_starts_inside_its_wobble_period() {
    for _ in 0..200 {
        let e = enemy(EnemyKind::Red, 7);
        assert!(e.wobble_count < WOBBLE_PERIOD);
        assert_eq!(e.hp, 2);
        assert_eq!(e.body, 7);
        assert_eq!(e.kind, EnemyKind::Red);
    }
}

#[test]
fn wobble_retargets_every_period() {
    let mut e = enemy(EnemyKind::Normal, 0);
    e.wobble_count = 0;
    let mut retargets = Vec::new();
    for frame in 1..=120u32 {
        if e.tick_wobble() {
            retargets.push(frame);
        }
        assert!(e.wobble_count < WOBBLE_PERIOD);
    }
    assert_eq!(retargets, vec![40, 80, 120]);
    e.wobble_count = 38;
    assert!(!e.tick_wobble());
    assert_eq!(e.wobble_count, 39);
    assert!(e.tick_wobble());
    assert_eq!(e.wobble_count, 0);
}

#[test]
fn player_dies_after_four_hits_and_reset_heals() {
    let mut p = Player::new(());
    assert_eq!((p.hp, p.max_hp, p.heart_anim_frame, p.heart_anim_index), (4, 4, 0, -1));
    assert!(!p.damage());
    assert_eq!((p.hp, p.heart_anim_index), (3, 3));
    assert!(!p.damage());
    assert!(!p.damage());
    assert_eq!(p.hp, 1);
    assert!(p.damage());
    assert_eq!((p.hp, p.heart_anim_index, p.heart_anim_frame), (0, 0, 0));
    assert!(p.damage());
    assert_eq!(p.hp, 0);
    p.reset();
    assert_eq!((p.hp, p.heart_anim_frame, p.heart_anim_index), (4, 0, -1));
}

#[test]
fn heart_animation_runs_eight_frames_then_stops() {
    let mut p = Player::new(());
    p.advance_heart_frame();
    assert_eq!((p.heart_anim_frame, p.heart_anim_index), (0, -1));
    p.damage();
    assert!(p.heart_anim_active());
    for f in 1..8 {
        p.advance_heart_frame();
        assert_eq!((p.heart_anim_frame, p.heart_anim_index), (f, 3));
    }
    p.advance_heart_frame();
    assert_eq!((p.heart_anim_frame, p.heart_anim_index), (0, -1));
    assert!(!p.heart_anim_active());
}

#[test]
fn hud_hearts() {
    let mut p = Player::new(());
    assert_eq!(
        heart_states(&p),
        vec![HeartState::Full, HeartState::Full, HeartState::Full, HeartState::Pulsing]
    );
    p.damage();
    p.damage();
    assert_eq!(
        heart_states(&p),
        vec![HeartState::Full, HeartState::Pulsing, HeartState::Lost, HeartState::Lost]
    );
    p.damage();
    p.damage();
    assert_eq!(heart_states(&p), vec![HeartState::Lost; 4]);
}

#[test]
fn hud_kill_counter_is_zero_padded() {
    assert_eq!(kills_label(0), "0000");
    assert_eq!(kills_label(7), "0007");
    assert_eq!(kills_label(42), "0042");
    assert_eq!(kills_label(305), "0305");
    assert_eq!(kills_label(9999), "9999");
    assert_eq!(kills_label(12345), "12345");
    assert_eq!(kills_label(u32::MAX), "4294967295");
    for k in [1u32, 10, 99, 100, 1000, 54321] {
        assert_eq!(kills_label(k), format!("{:04}", k));
    }
}

#[test]
fn music_toggle() {
    let mut a = AudioManager::new();
    assert!(!a.music_muted);
    assert_eq!(a.play_menu_music(), MusicCommand::Play);
    assert_eq!(a.toggle_music(), MusicCommand::Stop);
    assert!(a.music_muted);
    assert_eq!(a.play_menu_music(), MusicCommand::Nothing);
    assert_eq!(a.toggle_music(), MusicCommand::Play);
    assert!(!a.music_muted);
}

#[test]
fn death_screen_first_clicked_button_wins() {
    assert_eq!(death_action(false, false, false), DeathAction::Stay);
    assert_eq!(death_action(true, false, false), DeathAction::Restart);
    assert_eq!(death_action(false, true, false), DeathAction::Menu);
    assert_eq!(death_action(false, false, true), DeathAction::Quit);
    assert_eq!(death_action(true, true, true), DeathAction::Restart);
    assert_eq!(death_action(false, true, true), DeathAction::Menu);
}

#[test]
fn retain_keeps_flagged_in_order() {
    let v = vec![10, 20, 30, 40, 50];
    assert_eq!(retain_flagged(v, &vec![true, false, true, false, true]), vec![10, 30, 50]);
    assert_eq!(retain_flagged(Vec::<u8>::new(), &vec![]), Vec::<u8>::new());
}

#[test]
fn wave_enters_front_first() {
    let mut s: PlayingState<u32, ()> =
        PlayingState::new(wave(&[EnemyKind::Normal, EnemyKind::Red, EnemyKind::Boss]));
    assert_eq!((s.stage, s.kills, s.waiting_next_stage), (1, 0, false));
    assert!(s.enemies.is_empty());
    assert!(s.has_pending());
    s.spawn_next();
    s.spawn_next();
    let tags: Vec<u32> = s.enemies.iter().map(|e| e.body).collect();
    assert_eq!(tags, vec![0, 1]);
    assert_eq!(s.pending_enemies.len(), 1);
    s.spawn_next();
    assert!(!s.has_pending());
    s.spawn_next();
    let kinds: Vec<EnemyKind> = s.enemies.iter().map(|e| e.kind).collect();
    assert_eq!(kinds, vec![EnemyKind::Normal, EnemyKind::Red, EnemyKind::Boss]);
}

fn on_screen(kinds: &[EnemyKind]) -> PlayingState<u32, u32> {
    let mut s = PlayingState::new(wave(kinds));
    while s.has_pending() {
        s.spawn_next();
    }
    s
}

#[test]
fn ramming_costs_one_hp_per_enemy_and_kills_small_ones() {
    let mut s = on_screen(&[EnemyKind::Normal, EnemyKind::Boss, EnemyKind::Red, EnemyKind::MiniBoss]);
    let mut p = Player::new(());
    let hits = s.handle_player_enemy_collision(&mut p, &vec![true, true, false, true]);
    assert_eq!(hits, vec![0, 1, 3]);
    assert_eq!(p.hp, 1);
    assert_eq!(p.heart_anim_index, 1);
    let hps: Vec<i32> = s.enemies.iter().map(|e| e.hp).collect();
    assert_eq!(hps, vec![0, 30, 2, 8]);
    assert_eq!(s.kills, 0);
    s.cleanup_dead_entities();
    let kinds: Vec<EnemyKind> = s.enemies.iter().map(|e| e.kind).collect();
    assert_eq!(kinds, vec![EnemyKind::Boss, EnemyKind::Red, EnemyKind::MiniBoss]);
}

#[test]
fn shots_hit_first_overlapped_enemy_and_count_kills() {
    let mut s = on_screen(&[EnemyKind::Normal, EnemyKind::Red, EnemyKind::Boss]);
    s.bullets = vec![100, 101, 102, 103, 104];
    let overlaps = vec![
        vec![true, true, false],   // hits enemy 0 (first overlapped): kill
        vec![false, false, false], // misses
        vec![false, true, true],   // hits enemy 1
        vec![true, false, false],  // hits enemy 0 again: hp -1, no new kill
        vec![false, true, false],  // hits enemy 1 again: kill
    ];
    let targets = s.handle_player_bullet_enemy_collision(&overlaps);
    assert_eq!(targets, vec![0, 1, 0, 1]);
    assert_eq!(s.bullets, vec![101]);
    let hps: Vec<i32> = s.enemies.iter().map(|e| e.hp).collect();
    assert_eq!(hps, vec![-1, 0, 30]);
    assert_eq!(s.kills, 2);
    s.cleanup_dead_entities();
    assert_eq!(s.enemies.len(), 1);
    assert_eq!(s.enemies[0].kind, EnemyKind::Boss);
}

#[test]
fn rammed_enemy_hit_by_shot_is_not_counted() {
    let mut s = on_screen(&[EnemyKind::Normal]);
    let mut p = Player::new(());
    s.handle_player_enemy_collision(&mut p, &vec![true]);
    s.bullets = vec![1];
    s.handle_player_bullet_enemy_collision(&vec![vec![true]]);
    assert_eq!(s.kills, 0);
    assert_eq!(s.enemies[0].hp, -1);
    assert!(s.bullets.is_empty());
}

#[test]
fn enemy_shots_report_death() {
    let mut p = Player::new(());
    p.damage();
    p.damage();
    let deaths = handle_enemy_bullet_player_collision(&mut p, &vec![true, false, true, true]);
    assert_eq!(deaths, vec![false, false, true, true]);
    assert_eq!(p.hp, 0);
    let mut q = Player::new(());
    let deaths = handle_enemy_bullet_player_collision(&mut q, &vec![false, false]);
    assert_eq!(deaths, vec![false, false]);
    assert_eq!(q.hp, 4);
}

#[test]
fn stage_transition_after_clear_and_cap() {
    let mut s: PlayingState<u32, u32> = on_screen(&[EnemyKind::Normal]);
    assert!(!s.begin_transition_if_cleared());
    s.enemies[0].hp = 0;
    s.cleanup_dead_entities();
    assert!(s.begin_transition_if_cleared());
    assert!(s.waiting_next_stage);
    assert!(!s.begin_transition_if_cleared());
    assert!(!s.advance_stage());
    assert_eq!(s.stage, 2);
    assert!(!s.waiting_next_stage);
    s.load_wave(wave(&[EnemyKind::Red, EnemyKind::Red]));
    assert!(s.enemies.is_empty());
    assert_eq!(s.pending_enemies.len(), 2);
    for expected in 3..=MAX_STAGE {
        assert!(!s.advance_stage());
        assert_eq!(s.stage, expected);
    }
    assert!(s.advance_stage());
    assert_eq!(s.stage, MAX_STAGE);
}

#[test]
fn pending_wave_blocks_transition() {
    let mut s: PlayingState<u32, u32> = PlayingState::new(wave(&[EnemyKind::Normal]));
    assert!(!s.begin_transition_if_cleared());
    assert!(!s.waiting_next_stage);
}

#[test]
fn enemy_with_given_wobble() {
    let e = Enemy::with_wobble(EnemyKind::MiniBoss, 17, "body");
    assert_eq!((e.kind, e.hp, e.wobble_count, e.body), (EnemyKind::MiniBoss, 8, 17, "body"));
}

#[test]
fn shots_fit_detects_overflow() {
    let mut s = on_screen(&[EnemyKind::Normal, EnemyKind::Red]);
    s.bullets = vec![1, 2];
    let overlaps = vec![vec![true, false], vec![false, true]];
    assert!(s.shots_fit(&overlaps));
    s.kills = u32::MAX;
    assert!(!s.shots_fit(&overlaps));
    // No enemy brought to zero: the count cannot overflow.
    s.enemies[0].hp = 5;
    s.enemies[1].hp = 5;
    assert!(s.shots_fit(&overlaps));
    s.enemies[1].hp = i32::MIN;
    assert!(!s.shots_fit(&overlaps));
    assert!(s.shots_fit(&vec![vec![true, true], vec![false, false]]));
}
