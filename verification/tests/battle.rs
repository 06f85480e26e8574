use ecs_game::command::Command;
use ecs_game::game2::battle_status_component::BattleStatusComponent;
use ecs_game::game2::{resolve_button1, resolve_button1_with_roll, target_index, target_index_with_roll};

fn text_of(c: &Command) -> (Option<usize>, String) {
    match c {
        Command::SendPeer(p, t) => (Some(*p), t.clone()),
        Command::SendAll(t) => (None, t.clone()),
    }
}

#[test]
fn new_fighter_has_full_status() {
    let b = BattleStatusComponent::new();
    assert_eq!(b.hp(), 100);
    assert_eq!(b.attack_pow(), 15);
}

#[test]
fn attacked_with_roll_takes_attack_power_plus_roll_mod_four() {
    let me = BattleStatusComponent::new();
    let mut tgt = BattleStatusComponent::new();
    let damage = tgt.attacked_with_roll(&me, 6);
    assert_eq!(damage, 17);
    assert_eq!(tgt.hp(), 83);
    assert_eq!(tgt.attack_pow(), 15);
    let damage = tgt.attacked_with_roll(&me, 4);
    assert_eq!(damage, 15);
    assert_eq!(tgt.hp(), 68);
}

#[test]
fn attacked_damage_is_in_range_and_comes_off_hp() {
    let me = BattleStatusComponent::new();
    let mut tgt = BattleStatusComponent::new();
    for _ in 0..10 {
        let before = tgt.hp();
        let damage = tgt.attacked(&me);
        assert!((15..=18).contains(&damage));
        assert_eq!(tgt.hp(), before - damage);
    }
}

#[test]
fn hp_may_go_below_zero() {
    let me = BattleStatusComponent::new();
    let mut tgt = BattleStatusComponent::new();
    for _ in 0..7 {
        tgt.attacked_with_roll(&me, 0);
    }
    assert_eq!(tgt.hp(), -5);
}

#[test]
fn target_index_is_roll_mod_count() {
    assert_eq!(target_index_with_roll(7, 3), 1);
    assert_eq!(target_index_with_roll(u32::MAX, 1), 0);
    for _ in 0..10 {
        assert!(target_index(4) < 4);
    }
}

#[test]
fn attacking_oneself_has_no_effect() {
    let (status, cmd) = resolve_button1_with_roll(3, 3, None, None, 2);
    assert!(status.is_none());
    assert_eq!(text_of(&cmd.unwrap()), (None, "script show_text('3の攻撃!効果がなかった')".to_string()));
}

#[test]
fn attacking_another_reports_the_damage() {
    let me = BattleStatusComponent::new();
    let tgt = BattleStatusComponent::new();
    let (status, cmd) = resolve_button1_with_roll(1, 2, Some(&me), Some(tgt), 3);
    assert_eq!(status.unwrap().hp(), 82);
    assert_eq!(
        text_of(&cmd.unwrap()),
        (None, "script show_text('1の攻撃!>>2に18のダメージ!')".to_string())
    );
}

#[test]
fn attack_without_statuses_does_nothing() {
    let tgt = BattleStatusComponent::new();
    let (status, cmd) = resolve_button1_with_roll(1, 2, None, Some(tgt), 3);
    assert!(status.is_none());
    assert!(cmd.is_none());
}

#[test]
fn random_attack_damage_in_range() {
    let me = BattleStatusComponent::new();
    let tgt = BattleStatusComponent::new();
    let (status, cmd) = resolve_button1(-4, 9, Some(&me), Some(tgt));
    let hp = status.unwrap().hp();
    assert!((82..=85).contains(&hp));
    let expected = format!("script show_text('-4の攻撃!>>9に{}のダメージ!')", 100 - hp);
    assert_eq!(text_of(&cmd.unwrap()), (None, expected));
}

#[test]
fn attack_power_stays_fifteen() {
    let me = BattleStatusComponent::new();
    let mut tgt = BattleStatusComponent::new();
    tgt.attacked_with_roll(&me, 1);
    tgt.attacked(&me);
    assert_eq!(tgt.attack_pow(), 15);
    assert_eq!(me.attack_pow(), 15);
}
