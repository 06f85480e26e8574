use std::cell::RefCell;
use std::rc::Rc;

use ecs_game::entity_component::{Component, Entity, System};

/// A component that records, in a shared log, each update it receives.
struct Probe {
    kind: i32,
    tag: u32,
    updates: u32,
    log: Rc<RefCell<Vec<(i32, u32, bool)>>>,
}

impl Component for Probe {
    fn typeid(&self) -> i32 {
        self.kind
    }

    fn update(&self, parent: &Entity<Self>) -> Self {
        let sees_itself = parent.components().contains_key(&self.kind);
        self.log.borrow_mut().push((self.kind, self.tag, sees_itself));
        Probe { kind: self.kind, tag: self.tag, updates: self.updates + 1, log: self.log.clone() }
    }
}

fn probe(kind: i32, tag: u32, log: &Rc<RefCell<Vec<(i32, u32, bool)>>>) -> Probe {
    Probe { kind, tag, updates: 0, log: log.clone() }
}

#[test]
fn new_entity_has_no_components() {
    let e: Entity<Probe> = Entity::new();
    assert!(e.components().is_empty());
}

#[test]
fn add_component_files_under_its_type_id() {
    let log = Rc::new(RefCell::new(Vec::new()));
    let mut e = Entity::new();
    e.add_component(probe(2, 7, &log));
    e.add_component(probe(5, 8, &log));
    assert_eq!(e.components().len(), 2);
    assert_eq!(e.component(2).tag, 7);
    assert_eq!(e.component(5).tag, 8);
}

#[test]
fn second_component_of_a_type_replaces_the_first() {
    let log = Rc::new(RefCell::new(Vec::new()));
    let mut e = Entity::new();
    e.add_component(probe(3, 1, &log));
    e.add_component(probe(3, 2, &log));
    assert_eq!(e.components().len(), 1);
    assert_eq!(e.component(3).tag, 2);
}

#[test]
fn insert_component_then_read_back() {
    let log = Rc::new(RefCell::new(Vec::new()));
    let mut e = Entity::new();
    e.insert_component(9, probe(1, 4, &log));
    assert_eq!(e.component(9).tag, 4);
    assert!(!e.components().contains_key(&1));
}

#[test]
fn component_mut_writes_back() {
    let log = Rc::new(RefCell::new(Vec::new()));
    let mut e = Entity::new();
    e.add_component(probe(1, 4, &log));
    e.component_mut(1).tag = 40;
    assert_eq!(e.component(1).tag, 40);
}

#[test]
fn update_entity_updates_only_that_component() {
    let log = Rc::new(RefCell::new(Vec::new()));
    let mut e = Entity::new();
    e.add_component(probe(1, 10, &log));
    e.add_component(probe(2, 20, &log));
    e.update_entity(2);
    assert_eq!(e.component(1).updates, 0);
    assert_eq!(e.component(2).updates, 1);
    assert_eq!(e.components().len(), 2);
    // While it updates, a component sees its whole entity, itself included.
    assert_eq!(*log.borrow(), vec![(2, 20, true)]);
}

#[test]
fn update_entity_of_a_missing_type_does_nothing() {
    let log = Rc::new(RefCell::new(Vec::new()));
    let mut e = Entity::new();
    e.add_component(probe(1, 10, &log));
    e.update_entity(4);
    assert_eq!(e.component(1).updates, 0);
    assert!(log.borrow().is_empty());
}

#[test]
fn system_update_visits_type_ids_ascending_then_entities_in_order() {
    let log = Rc::new(RefCell::new(Vec::new()));
    let mut a = Entity::new();
    a.add_component(probe(3, 100, &log));
    a.add_component(probe(1, 101, &log));
    let mut b = Entity::new();
    b.add_component(probe(2, 200, &log));
    b.add_component(probe(1, 201, &log));
    let mut sys = System::new();
    sys.add_entity(a);
    sys.add_entity(b);
    sys.update();
    assert_eq!(
        *log.borrow(),
        vec![(1, 101, true), (1, 201, true), (2, 200, true), (3, 100, true)]
    );
    assert_eq!(sys.entities().len(), 2);
    assert_eq!(sys.entities()[0].components().len(), 2);
    assert_eq!(sys.entities()[1].component(2).updates, 1);
}

#[test]
fn system_only_updates_type_ids_of_added_entities() {
    let log = Rc::new(RefCell::new(Vec::new()));
    let mut a = Entity::new();
    a.add_component(probe(1, 1, &log));
    let mut sys = System::new();
    sys.add_entity(a);
    // A component added afterwards, under a type id no entity was added
    // with, is not updated.
    sys.entities_mut()[0].add_component(probe(6, 2, &log));
    sys.update();
    assert_eq!(*log.borrow(), vec![(1, 1, true)]);
    assert_eq!(sys.entities()[0].component(6).updates, 0);
}

#[test]
fn empty_system_update_does_nothing() {
    let mut sys: System<Probe> = System::new();
    sys.update();
    assert!(sys.entities().is_empty());
}

#[test]
fn type_ids_do_not_depend_on_the_order_of_adding() {
    let visited = |first_then_second: bool| {
        let log = Rc::new(RefCell::new(Vec::new()));
        let mut a = Entity::new();
        a.add_component(probe(4, 1, &log));
        let mut b = Entity::new();
        b.add_component(probe(2, 2, &log));
        let mut sys = System::new();
        if first_then_second {
            sys.add_entity(a);
            sys.add_entity(b);
        } else {
            sys.add_entity(b);
            sys.add_entity(a);
        }
        sys.update();
        let kinds: Vec<i32> = log.borrow().iter().map(|e| e.0).collect();
        kinds
    };
    assert_eq!(visited(true), vec![2, 4]);
    assert_eq!(visited(false), vec![2, 4]);
}
