use ecs_game::command::Command;
use ecs_game::game1;
use ecs_game::game2;
use ecs_game::message::{classify, same_text, starts_with, MessageKind};
use ecs_game::text::{push_i32, push_usize};

fn texts(cmds: &[Command]) -> Vec<(Option<usize>, String)> {
    cmds.iter()
        .map(|c| match c {
            Command::SendPeer(p, t) => (Some(*p), t.clone()),
            Command::SendAll(t) => (None, t.clone()),
        })
        .collect()
}

#[test]
fn classify_messages() {
    assert!(classify("start") == MessageKind::Start);
    assert!(classify("button1") == MessageKind::Button1);
    assert!(classify("end") == MessageKind::End);
    assert!(classify("click 10 20") == MessageKind::Click);
    assert!(classify("click") == MessageKind::Click);
    assert!(classify("starts") == MessageKind::Other);
    assert!(classify("clic") == MessageKind::Other);
    assert!(classify("") == MessageKind::Other);
}

#[test]
fn text_comparisons() {
    assert!(same_text("攻撃", "攻撃"));
    assert!(!same_text("ab", "abc"));
    assert!(starts_with("abc", ""));
    assert!(!starts_with("ab", "abc"));
}

#[test]
fn decimal_rendering() {
    let mut s = String::new();
    push_i32(&mut s, 0);
    s.push(' ');
    push_i32(&mut s, -7);
    s.push(' ');
    push_i32(&mut s, i32::MIN);
    s.push(' ');
    push_i32(&mut s, i32::MAX);
    s.push(' ');
    push_usize(&mut s, 1234567890);
    assert_eq!(s, "0 -7 -2147483648 2147483647 1234567890");
}

#[test]
fn game2_player_name_and_setup() {
    assert_eq!(game2::player_name(12), "PL12");
    assert_eq!(
        texts(&game2::start_commands(12)),
        vec![
            (Some(12), "script setup_button(1,true,'攻撃')".to_string()),
            (Some(12), "script setup_button(2,false,'')".to_string()),
            (Some(12), "script setup_button(3,false,'')".to_string()),
        ]
    );
}

#[test]
fn game2_find_player_takes_the_last_match() {
    assert_eq!(game2::find_player(&vec![3, 5, 3, 1], 3), Some(2));
    assert_eq!(game2::find_player(&vec![3, 5], 4), None);
    assert_eq!(game2::find_player(&vec![], 4), None);
    // The peer's number is taken as an i32.
    assert_eq!(game2::find_player(&vec![-1], usize::MAX), Some(0));
}

#[test]
fn game1_type_ids_and_setup() {
    assert_eq!(game1::type_id(game1::ComponentKind::Input), 1);
    assert_eq!(game1::type_id(game1::ComponentKind::Position), 2);
    assert_eq!(game1::type_id(game1::ComponentKind::ObjectView), 3);
    assert_eq!(
        texts(&game1::start_commands()),
        vec![
            (None, "script setup_button(1,false,'')".to_string()),
            (None, "script setup_button(2,false,'')".to_string()),
            (None, "script setup_button(3,false,'')".to_string()),
        ]
    );
}

#[test]
fn game1_find_by_token() {
    assert_eq!(game1::find_by_token(&vec![Some(1), None, Some(1), Some(2)], 1), Some(2));
    assert_eq!(game1::find_by_token(&vec![None, Some(2)], 1), None);
}

#[test]
fn game1_entities_of_peer() {
    assert_eq!(game1::entities_of_peer(&vec![Some(1), None, Some(1), Some(2)], 1), vec![0, 2]);
    assert!(game1::entities_of_peer(&vec![None, Some(2)], 1).is_empty());
}

#[test]
fn game2_type_ids() {
    assert_eq!(game2::type_id(game2::ComponentKind::Position), 2);
    assert_eq!(game2::type_id(game2::ComponentKind::BattleStatus), 3);
    assert_eq!(game2::type_id(game2::ComponentKind::ObjectView), 4);
}
