use ecs_game::command::Command;
use ecs_game::game2::object_view_component::ObjectViewComponent;

fn texts(cmds: &[Command]) -> Vec<(Option<usize>, String)> {
    cmds.iter()
        .map(|c| match c {
            Command::SendPeer(p, t) => (Some(*p), t.clone()),
            Command::SendAll(t) => (None, t.clone()),
        })
        .collect()
}

#[test]
fn new_peers_are_told_of_the_object_once() {
    let mut v = ObjectViewComponent::new("PL4".to_string());
    let cmds = v.update(&vec![4, 5], Some(100));
    assert_eq!(
        texts(&cmds),
        vec![
            (Some(4), "script new_object('PL4','PL4/HP:100')".to_string()),
            (None, "script object_set_text('PL4','PL4/HP:100')".to_string()),
            (Some(5), "script new_object('PL4','PL4/HP:100')".to_string()),
        ]
    );
    // Updating again with the same peers and hit points sends nothing.
    assert!(v.update(&vec![4, 5], Some(100)).is_empty());
}

#[test]
fn changed_hp_is_sent_to_all() {
    let mut v = ObjectViewComponent::new("PL1".to_string());
    v.update(&vec![1], Some(100));
    let cmds = v.update(&vec![1, 2], Some(83));
    assert_eq!(
        texts(&cmds),
        vec![
            (None, "script object_set_text('PL1','PL1/HP:83')".to_string()),
            (Some(2), "script new_object('PL1','PL1/HP:100')".to_string()),
        ]
    );
}

#[test]
fn negative_hp_is_shown_with_a_sign() {
    let mut v = ObjectViewComponent::new("X".to_string());
    let cmds = v.update(&vec![0], Some(-12));
    assert_eq!(texts(&cmds)[1], (None, "script object_set_text('X','X/HP:-12')".to_string()));
}

#[test]
fn without_peers_nothing_is_sent() {
    let mut v = ObjectViewComponent::new("PL1".to_string());
    assert!(v.update(&vec![], Some(50)).is_empty());
    // The hit points were not shown, so they are sent once a peer connects.
    let cmds = v.update(&vec![3], Some(50));
    assert_eq!(texts(&cmds).len(), 2);
}

#[test]
fn without_status_only_new_objects_are_sent() {
    let mut v = ObjectViewComponent::new("PL1".to_string());
    let cmds = v.update(&vec![3, 3], None);
    assert_eq!(texts(&cmds), vec![(Some(3), "script new_object('PL1','PL1/HP:100')".to_string())]);
}

#[test]
fn zero_hp_is_not_resent_initially() {
    let mut v = ObjectViewComponent::new("PL1".to_string());
    let cmds = v.update(&vec![3], Some(0));
    assert_eq!(texts(&cmds).len(), 1);
}

#[test]
fn new_object_uses_the_initial_label() {
    let v = ObjectViewComponent::new("PL9".to_string());
    assert_eq!(texts(&[v.new_object(9)]), vec![(Some(9), "script new_object('PL9',init)".to_string())]);
}

#[test]
fn a_copy_keeps_the_peers_told_and_the_hp_shown() {
    let mut v = ObjectViewComponent::new("PL2".to_string());
    v.update(&vec![1, 2], Some(70));
    let mut c = v.clone();
    // The copy knows both peers and the hit points shown: nothing to send.
    assert!(c.update(&vec![1, 2], Some(70)).is_empty());
    assert_eq!(texts(&c.update(&vec![3], Some(70))), vec![(Some(3), "script new_object('PL2','PL2/HP:100')".to_string())]);
}
