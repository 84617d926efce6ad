use viewtree::state::{callback, State, StateManager};

#[test]
fn declared_state_survives_a_rebuild() {
    let mut manager: StateManager<i64> = StateManager::new();
    manager.reset_id();
    let first = State::new(&mut manager, 10);
    assert_eq!(*first.value(&manager), 10);
    callback(&first, &mut manager, |v| v + 5);
    assert_eq!(*first.value(&manager), 15);

    manager.reset_id();
    let again = State::new(&mut manager, 10);
    assert_eq!(again.id(), first.id());
    assert_eq!(*again.value(&manager), 15);
}

#[test]
fn slots_follow_declaration_order() {
    let mut manager: StateManager<String> = StateManager::new();
    let a = State::new(&mut manager, String::from("a"));
    let b = State::new(&mut manager, String::from("b"));
    assert_eq!((a.id(), b.id()), (0, 1));
    callback(&b, &mut manager, |mut s| {
        s.push('!');
        s
    });
    manager.reset_id();
    let a2 = State::new(&mut manager, String::from("x"));
    let b2 = State::new(&mut manager, String::from("y"));
    assert_eq!(a2.value(&manager), "a");
    assert_eq!(b2.value(&manager), "b!");
}

#[test]
fn callback_reports_subscribers_in_order() {
    let mut manager: StateManager<u8> = StateManager::new();
    let mut s = State::new(&mut manager, 1);
    assert!(s.notify().is_empty());
    s.subscribe(4);
    s.subscribe(2);
    let told = callback(&s, &mut manager, |v| v * 3);
    assert_eq!(told, vec![4, 2]);
    assert_eq!(*s.value(&manager), 3);
}

#[test]
fn set_and_get_state_by_slot() {
    let mut manager: StateManager<u32> = StateManager::new();
    assert_eq!(manager.get_state(3), None);
    manager.set_state(3, 9);
    assert_eq!(manager.get_state(3), Some(&9));
    manager.set_state(3, 1);
    assert_eq!(manager.get_state(3), Some(&1));
    let s = State::new(&mut manager, 100);
    assert_eq!(*s.value(&manager), 100);
}
