use extracto::lifecycle::{finish_run, increment, init_player, reset, start_new_run};
use extracto::model::{CharacterInfo, GameErrorCode, PlayerData, RunData};
use extracto::prng::{card_type, enemy_type, xorshift64};
use extracto::tables::{ATTACK_BY_TYPE, COOLDOWN_BY_TYPE, HEALTH_BY_TYPE};
use extracto::tick::{advance_tick, increment_via_thread, resolve_slots};
use extracto::upgrade::{apply_upgrade, upgrade};

fn started() -> (PlayerData, RunData) {
    let (mut player, mut run) = init_player([7u8; 32], "ann".to_string());
    start_new_run(&mut run, &mut player);
    (player, run)
}

fn at(run: &RunData, i: usize) -> CharacterInfo {
    run.slots[i].expect("slot should be occupied")
}

#[test]
fn xorshift64_known_values() {
    assert_eq!(xorshift64(0), 0);
    assert_eq!(xorshift64(1), 1082269761);
    assert_eq!(xorshift64(42), 45454805674);
    assert_eq!(xorshift64(12345), 13289605635609);
    assert_eq!(xorshift64(u64::MAX), 1065361344);
}

#[test]
fn archetype_draws_follow_the_generator() {
    assert_eq!(enemy_type(0), 3);
    assert_eq!(enemy_type(1), 4);
    assert_eq!(enemy_type(2), 5);
    assert_eq!(enemy_type(3), 6);
    assert_eq!(card_type(0), 0);
    assert_eq!(card_type(42), 1);
    for seed in 0..1000u64 {
        assert!((3..=6).contains(&enemy_type(seed)));
        assert!(card_type(seed) < 3);
    }
}

#[test]
fn init_player_gives_empty_records() {
    let (player, run) = init_player([1u8; 32], "bob".to_string());
    assert_eq!(player.authority, [1u8; 32]);
    assert_eq!(player.name, "bob");
    assert_eq!(player.runs_finished, 0);
    assert_eq!(player.best_score, 0);
    assert!(!player.is_in_run);
    assert_eq!(run.authority, [1u8; 32]);
    assert_eq!(run.score, 0);
    assert_eq!(run.experience, 0);
    assert!(run.slots.iter().all(|s| s.is_none()));
    assert_eq!(run.last_character_id, 0);
    assert_eq!(run.last_card_id, 0);
}

#[test]
fn start_new_run_places_opening_roster() {
    let (player, run) = started();
    assert!(player.is_in_run);
    assert_eq!(run.score, 0);
    assert_eq!(run.experience, 0);
    for i in 0..7usize {
        let c = at(&run, i);
        assert_eq!(c.id, i as u16);
        assert_eq!(c.character_type, i as u8);
        assert_eq!(c.alignment, if i < 3 { 0 } else { 1 });
        assert_eq!(c.cooldown, COOLDOWN_BY_TYPE[i]);
        assert_eq!(c.cooldown_timer, COOLDOWN_BY_TYPE[i]);
        assert_eq!(c.max_health, HEALTH_BY_TYPE[i]);
        assert_eq!(c.health, HEALTH_BY_TYPE[i]);
        assert_eq!(c.attack_damage, ATTACK_BY_TYPE[i]);
        assert_eq!(c.state, 0);
    }
    assert_eq!(run.last_character_id, 6);
    for j in 0..3usize {
        assert_eq!(run.cards[j].id, j as u16);
        assert_eq!(run.cards[j].card_type, j as u8);
    }
    assert_eq!(run.last_card_id, 2);
}

#[test]
fn start_new_run_clears_previous_counters() {
    let (mut player, mut run) = started();
    run.score = 77;
    run.experience = 9;
    run.slots[4] = None;
    start_new_run(&mut run, &mut player);
    assert_eq!(run.score, 0);
    assert_eq!(run.experience, 0);
    assert_eq!(at(&run, 4).id, 4);
}

#[test]
fn ranged_volley_kills_two_hostiles_in_one_tick() {
    let (_, mut run) = started();
    run.slots[1].as_mut().unwrap().update_timer(1);
    run.slots[4].as_mut().unwrap().health = 1;
    run.slots[5].as_mut().unwrap().health = 1;
    assert_eq!(advance_tick(&mut run, 0), Ok(()));
    assert!(run.slots[4].is_none());
    assert!(run.slots[5].is_none());
    assert_eq!(run.experience, 2);
    assert_eq!(run.score, 1);
    let archer = at(&run, 1);
    assert_eq!(archer.state, 1);
    assert_eq!(archer.cooldown_timer, 4);
    assert_eq!(at(&run, 6).health, 19);
    assert_eq!(at(&run, 6).id, 6);
    assert_eq!(run.last_character_id, 6);
}

#[test]
fn hostile_steps_into_empty_slot() {
    let (_, mut run) = started();
    run.slots[2] = None;
    run.slots[3].as_mut().unwrap().cooldown_timer = 1;
    assert_eq!(advance_tick(&mut run, 0), Ok(()));
    let mover = at(&run, 2);
    assert_eq!(mover.id, 3);
    assert_eq!(mover.state, 2);
    assert_eq!(mover.cooldown_timer, 4);
    assert!(run.slots[3].is_none());
}

#[test]
fn moves_are_seen_by_later_slots_in_the_same_tick() {
    let (_, mut run) = started();
    run.slots[2] = None;
    run.slots[3].as_mut().unwrap().cooldown_timer = 1;
    run.slots[4].as_mut().unwrap().cooldown_timer = 1;
    assert_eq!(advance_tick(&mut run, 0), Ok(()));
    assert_eq!(at(&run, 2).id, 3);
    assert_eq!(at(&run, 3).id, 4);
    assert_eq!(at(&run, 3).state, 2);
    assert!(run.slots[4].is_none());
}

#[test]
fn power_upgrade_without_experience_is_free() {
    let (_, mut run) = started();
    assert_eq!(apply_upgrade(&mut run, 1, 0, 42), Ok(()));
    assert_eq!(at(&run, 0).attack_damage, 3);
    assert_eq!(run.experience, 0);
    assert_eq!(run.score, 100);
    assert_eq!(run.cards[1].id, 3);
    assert_eq!(run.cards[1].card_type, card_type(42));
    assert_eq!(run.last_card_id, 3);
}

#[test]
fn haste_at_cooldown_one_is_rejected_but_card_is_spent() {
    let (_, mut run) = started();
    run.slots[0].as_mut().unwrap().cooldown = 1;
    let before = at(&run, 0);
    assert_eq!(apply_upgrade(&mut run, 2, 0, 0), Ok(()));
    assert_eq!(at(&run, 0), before);
    assert_eq!(at(&run, 0).cooldown, 1);
    assert_eq!(run.cards[2].id, 3);
    assert_eq!(run.cards[2].card_type, 0);
    assert_eq!(run.score, 100);
}

#[test]
fn haste_shortens_cooldown_and_costs_three() {
    let (_, mut run) = started();
    run.experience = 5;
    assert_eq!(apply_upgrade(&mut run, 2, 6, 1), Ok(()));
    assert_eq!(at(&run, 6).cooldown, 9);
    assert_eq!(run.experience, 2);
}

#[test]
fn vitality_raises_health_and_maximum() {
    let (_, mut run) = started();
    run.experience = 1;
    run.slots[2].as_mut().unwrap().health = 4;
    assert_eq!(apply_upgrade(&mut run, 0, 2, 0), Ok(()));
    assert_eq!(at(&run, 2).max_health, 20);
    assert_eq!(at(&run, 2).health, 14);
    assert_eq!(run.experience, 0);
}

#[test]
fn upgrade_rejects_bad_card_offer() {
    let (_, mut run) = started();
    let before = run;
    assert_eq!(apply_upgrade(&mut run, 3, 0, 0), Err(GameErrorCode::InvalidCardOffer));
    assert_eq!(run, before);
}

#[test]
fn upgrade_rejects_empty_or_missing_slot() {
    let (_, mut run) = started();
    run.slots[5] = None;
    let before = run;
    assert_eq!(apply_upgrade(&mut run, 0, 5, 0), Err(GameErrorCode::InvalidSlot));
    assert_eq!(apply_upgrade(&mut run, 0, 7, 0), Err(GameErrorCode::InvalidSlot));
    assert_eq!(run, before);
}

#[test]
fn upgrade_rejects_overflowing_statistic() {
    let (_, mut run) = started();
    run.slots[0].as_mut().unwrap().attack_damage = 255;
    let before = run;
    assert_eq!(apply_upgrade(&mut run, 1, 0, 0), Err(GameErrorCode::ArithmeticOverflow));
    assert_eq!(run, before);
    run.slots[0].as_mut().unwrap().max_health = 250;
    let before = run;
    assert_eq!(apply_upgrade(&mut run, 0, 0, 0), Err(GameErrorCode::ArithmeticOverflow));
    assert_eq!(run, before);
}

#[test]
fn upgrade_rejects_score_overflow() {
    let (_, mut run) = started();
    run.score = u64::MAX - 99;
    let before = run;
    assert_eq!(apply_upgrade(&mut run, 1, 0, 0), Err(GameErrorCode::ArithmeticOverflow));
    assert_eq!(run, before);
}

#[test]
fn tick_rejects_score_overflow() {
    let (_, mut run) = started();
    run.score = u64::MAX;
    let before = run;
    assert_eq!(advance_tick(&mut run, 0), Err(GameErrorCode::ArithmeticOverflow));
    assert_eq!(run, before);
}

#[test]
fn tick_rejects_experience_overflow() {
    let (_, mut run) = started();
    run.experience = u16::MAX;
    run.slots[0].as_mut().unwrap().cooldown_timer = 1;
    run.slots[6].as_mut().unwrap().health = 1;
    let before = run;
    assert_eq!(advance_tick(&mut run, 0), Err(GameErrorCode::ArithmeticOverflow));
    assert_eq!(run, before);
}

#[test]
fn tick_rejects_id_overflow_on_spawn() {
    let (_, mut run) = started();
    run.slots[6] = None;
    run.last_character_id = u16::MAX;
    let before = run;
    assert_eq!(advance_tick(&mut run, 0), Err(GameErrorCode::ArithmeticOverflow));
    assert_eq!(run, before);
}

#[test]
fn empty_spawn_slot_gets_new_enemy() {
    let (_, mut run) = started();
    run.slots[6] = None;
    assert_eq!(advance_tick(&mut run, 1), Ok(()));
    let fresh = at(&run, 6);
    assert_eq!(fresh.id, 7);
    assert_eq!(fresh.alignment, 1);
    assert_eq!(fresh.character_type, 4);
    assert_eq!(fresh.cooldown, 6);
    assert_eq!(fresh.cooldown_timer, 6);
    assert_eq!(fresh.health, 5);
    assert_eq!(fresh.max_health, 5);
    assert_eq!(fresh.attack_damage, 1);
    assert_eq!(fresh.state, 0);
    assert_eq!(run.last_character_id, 7);
}

#[test]
fn guard_kill_frees_spawn_slot_for_a_new_enemy() {
    let (_, mut run) = started();
    run.slots[0].as_mut().unwrap().cooldown_timer = 1;
    run.slots[6].as_mut().unwrap().health = 2;
    assert_eq!(advance_tick(&mut run, 3), Ok(()));
    assert_eq!(run.experience, 1);
    assert_eq!(at(&run, 0).state, 1);
    assert_eq!(at(&run, 6).id, 7);
    assert_eq!(at(&run, 6).character_type, 6);
    assert_eq!(at(&run, 6).health, 20);
}

#[test]
fn melee_wounds_then_kills_next_slot() {
    let (_, mut run) = started();
    run.slots[2].as_mut().unwrap().cooldown_timer = 1;
    assert_eq!(advance_tick(&mut run, 0), Ok(()));
    assert_eq!(at(&run, 3).health, 2);
    assert_eq!(at(&run, 2).state, 1);
    assert_eq!(run.experience, 0);
    run.slots[2].as_mut().unwrap().cooldown_timer = 1;
    assert_eq!(advance_tick(&mut run, 0), Ok(()));
    assert!(run.slots[3].is_none());
    assert_eq!(run.experience, 1);
}

#[test]
fn hostile_attacks_friendly_in_front() {
    let (_, mut run) = started();
    run.slots[3].as_mut().unwrap().cooldown_timer = 1;
    assert_eq!(advance_tick(&mut run, 0), Ok(()));
    assert_eq!(at(&run, 2).health, 9);
    assert_eq!(at(&run, 3).state, 1);
}

#[test]
fn hostile_kill_removes_friendly_without_experience() {
    let (_, mut run) = started();
    run.slots[2].as_mut().unwrap().health = 1;
    run.slots[3].as_mut().unwrap().cooldown_timer = 1;
    assert_eq!(advance_tick(&mut run, 0), Ok(()));
    assert!(run.slots[2].is_none());
    assert_eq!(run.experience, 0);
}

#[test]
fn hostile_behind_hostile_waits() {
    let (_, mut run) = started();
    run.slots[4].as_mut().unwrap().cooldown_timer = 1;
    run.slots[4].as_mut().unwrap().state = 2;
    assert_eq!(advance_tick(&mut run, 0), Ok(()));
    let waiting = at(&run, 4);
    assert_eq!(waiting.id, 4);
    assert_eq!(waiting.cooldown_timer, 6);
    assert_eq!(waiting.state, 2);
}

#[test]
fn waiting_combatant_turns_idle() {
    let (_, mut run) = started();
    run.slots[5].as_mut().unwrap().state = 1;
    assert_eq!(advance_tick(&mut run, 0), Ok(()));
    assert_eq!(at(&run, 5).state, 0);
    assert_eq!(at(&run, 5).cooldown_timer, 7);
}

#[test]
fn melee_on_last_slot_has_no_target() {
    let (_, mut run) = started();
    let mut melee = at(&run, 2);
    melee.cooldown_timer = 1;
    run.slots[6] = Some(melee);
    let (slots, kills) = resolve_slots(run.slots);
    assert_eq!(kills, 0);
    assert_eq!(slots[6].unwrap().cooldown_timer, 6);
}

#[test]
fn tick_is_deterministic() {
    let (_, mut a) = started();
    a.slots[6] = None;
    a.slots[1].as_mut().unwrap().cooldown_timer = 1;
    let mut b = a;
    assert_eq!(advance_tick(&mut a, 99), advance_tick(&mut b, 99));
    assert_eq!(a, b);
    let mut c = a;
    let mut d = a;
    assert_eq!(apply_upgrade(&mut c, 0, 1, 5), apply_upgrade(&mut d, 0, 1, 5));
    assert_eq!(c, d);
}

#[test]
fn long_run_keeps_health_bounds_and_spawn_slot() {
    let (_, mut run) = started();
    for t in 0..500u64 {
        let before = run.score;
        assert_eq!(advance_tick(&mut run, t * 7919 + 1), Ok(()));
        assert_eq!(run.score, before + 1);
        assert!(run.slots[6].is_some());
        for s in run.slots.iter().flatten() {
            assert!(s.health >= 1 && s.health <= s.max_health);
            assert!(s.cooldown_timer >= 1);
        }
        if t % 50 == 0 {
            let score = run.score;
            if apply_upgrade(&mut run, (t % 3) as u16, 0, t).is_ok() {
                assert_eq!(run.score, score + 100);
            }
        }
    }
}

#[test]
fn finish_run_records_best_score_and_resets_counters() {
    let (mut player, mut run) = started();
    player.best_score = 100;
    run.score = 150;
    run.experience = 4;
    let slots = run.slots;
    let cards = run.cards;
    assert_eq!(finish_run(&mut run, &mut player), Ok(()));
    assert_eq!(player.best_score, 150);
    assert_eq!(player.runs_finished, 1);
    assert!(!player.is_in_run);
    assert_eq!(run.score, 0);
    assert_eq!(run.experience, 0);
    assert_eq!(run.last_character_id, 0);
    assert_eq!(run.last_card_id, 0);
    assert_eq!(run.slots, slots);
    assert_eq!(run.cards, cards);
}

#[test]
fn finish_run_keeps_higher_best_score() {
    let (mut player, mut run) = started();
    player.best_score = 500;
    run.score = 150;
    assert_eq!(finish_run(&mut run, &mut player), Ok(()));
    assert_eq!(player.best_score, 500);
}

#[test]
fn finish_run_rejects_run_count_overflow() {
    let (mut player, mut run) = started();
    player.runs_finished = u32::MAX;
    run.score = 3;
    let before = run;
    assert_eq!(finish_run(&mut run, &mut player), Err(GameErrorCode::ArithmeticOverflow));
    assert_eq!(run, before);
    assert_eq!(player.runs_finished, u32::MAX);
    assert!(player.is_in_run);
}

#[test]
fn increment_and_reset_score() {
    let (_, mut run) = started();
    assert_eq!(increment(&mut run), Ok(()));
    assert_eq!(run.score, 1);
    reset(&mut run);
    assert_eq!(run.score, 0);
    run.score = u64::MAX;
    assert_eq!(increment(&mut run), Err(GameErrorCode::ArithmeticOverflow));
    assert_eq!(run.score, u64::MAX);
}

#[test]
fn update_timer_sets_only_the_timer() {
    let (_, run) = started();
    let mut c = at(&run, 3);
    c.update_timer(2);
    assert_eq!(c.cooldown_timer, 2);
    assert_eq!(c.cooldown, 4);
}

#[test]
fn validity_check_accepts_started_run_and_rejects_broken_ones() {
    let (_, run) = started();
    assert!(run.is_valid());
    let (_, fresh) = init_player([0u8; 32], String::new());
    assert!(fresh.is_valid());
    let mut dead = run;
    dead.slots[3].as_mut().unwrap().health = 0;
    assert!(!dead.is_valid());
    let mut overhealed = run;
    overhealed.slots[3].as_mut().unwrap().health = 9;
    assert!(!overhealed.is_valid());
    let mut stuck = run;
    stuck.slots[0].as_mut().unwrap().cooldown_timer = 0;
    assert!(!stuck.is_valid());
    let mut frozen = run;
    frozen.slots[0].as_mut().unwrap().cooldown = 0;
    assert!(!frozen.is_valid());
    let mut odd_card = run;
    odd_card.cards[1].card_type = 3;
    assert!(!odd_card.is_valid());
}

#[test]
fn round_without_spawn_reads_no_clock() {
    let (_, mut run) = started();
    run.slots[1].as_mut().unwrap().cooldown_timer = 1;
    let mut expected = run;
    assert_eq!(advance_tick(&mut expected, 12345), Ok(()));
    assert_eq!(increment_via_thread(&mut run), Ok(()));
    assert_eq!(run, expected);
    assert_eq!(run.score, 1);
}

#[test]
fn round_needing_spawn_reports_unreadable_clock() {
    let (_, mut run) = started();
    run.slots[6] = None;
    let before = run;
    assert_eq!(increment_via_thread(&mut run), Err(GameErrorCode::ClockUnavailable));
    assert_eq!(run, before);
}

#[test]
fn round_overflow_is_reported_before_clock() {
    let (_, mut run) = started();
    run.slots[6] = None;
    run.score = u64::MAX;
    let before = run;
    assert_eq!(increment_via_thread(&mut run), Err(GameErrorCode::ArithmeticOverflow));
    assert_eq!(run, before);
}

#[test]
fn upgrade_checks_choice_before_clock() {
    let (_, mut run) = started();
    run.slots[5] = None;
    let before = run;
    assert_eq!(upgrade(&mut run, 3, 0), Err(GameErrorCode::InvalidCardOffer));
    assert_eq!(upgrade(&mut run, 0, 5), Err(GameErrorCode::InvalidSlot));
    assert_eq!(upgrade(&mut run, 1, 0), Err(GameErrorCode::ClockUnavailable));
    assert_eq!(run, before);
}

#[test]
fn kills_match_vanished_hostile_ids_and_ids_are_never_reused() {
    let (_, mut run) = started();
    let mut present: Vec<u16> = run.slots.iter().flatten().map(|c| c.id).collect();
    let mut gone: Vec<u16> = Vec::new();
    for t in 0..400u64 {
        let hostiles: Vec<u16> = run
            .slots
            .iter()
            .flatten()
            .filter(|c| c.alignment == 1)
            .map(|c| c.id)
            .collect();
        let experience = run.experience;
        let last = run.last_character_id;
        assert_eq!(advance_tick(&mut run, t), Ok(()));
        let after: Vec<u16> = run.slots.iter().flatten().map(|c| c.id).collect();
        let vanished = hostiles.iter().filter(|id| !after.contains(id)).count() as u16;
        assert_eq!(run.experience, experience + vanished);
        for (j, id) in after.iter().enumerate() {
            assert!(!after[j + 1..].contains(id));
            assert!(*id <= run.last_character_id);
            assert!(!gone.contains(id));
            if !present.contains(id) {
                assert_eq!(*id, last + 1);
            }
        }
        gone.extend(present.iter().copied().filter(|id| !after.contains(id)));
        present = after;
    }
    assert!(!gone.is_empty());
}
