use ecs_game::server_loop::{next_action, LoopAction, ServerEvent};

#[test]
fn text_is_handled() {
    match next_action(ServerEvent::Text(3, "start".to_string())) {
        LoopAction::HandleText(peer, msg) => {
            assert_eq!(peer, 3);
            assert_eq!(msg, "start");
        }
        _ => panic!("text not handled"),
    }
}

#[test]
fn binary_is_echoed() {
    match next_action(ServerEvent::Binary(5, vec![1, 2, 3])) {
        LoopAction::Echo(peer, data) => {
            assert_eq!(peer, 5);
            assert_eq!(data, vec![1, 2, 3]);
        }
        _ => panic!("binary not echoed"),
    }
}

#[test]
fn idle_server_means_a_tick_after_33_ms() {
    assert!(matches!(next_action(ServerEvent::Idle), LoopAction::SleepThenUpdate(33)));
}

#[test]
fn connect_is_noted_and_the_rest_let_pass() {
    assert!(matches!(next_action(ServerEvent::Connect(7)), LoopAction::LogConnect(7)));
    assert!(matches!(next_action(ServerEvent::Other(7)), LoopAction::Nothing));
    assert!(matches!(next_action(ServerEvent::Disconnected), LoopAction::Nothing));
}
