use sulis::{EntityState, Point, TurnAction, TurnTimer};

fn entity(index: usize, is_pc: bool, ai_active: bool, initiative: i32) -> Option<EntityState> {
    Some(EntityState { uid: 100 + index, index, size: 1, is_pc, ai_active, initiative, ap: 0, location: Point::new(0, 0) })
}

#[test]
fn new_orders_by_falling_initiative_keeping_ties_in_place() {
    let table = vec![
        entity(0, true, false, 5),
        None,
        entity(2, false, true, 9),
        entity(3, false, false, 5),
        entity(4, false, true, 7),
    ];
    let (timer, actions) = TurnTimer::new(&table);
    assert_eq!(timer.entity_order(), vec![2, 4, 0, 3]);
    assert!(!timer.is_active());
    assert_eq!(actions, vec![TurnAction::InitTurn(2)]);
    assert_eq!(timer.current(), None);

    let (empty, actions) = TurnTimer::new(&vec![None, None]);
    assert!(empty.entity_order().is_empty());
    assert!(actions.is_empty());
}

#[test]
fn default_timer_is_empty() {
    let t = TurnTimer::default();
    assert!(t.entity_order().is_empty());
    assert!(!t.is_active());
}

#[test]
fn set_active_ends_or_starts_turns() {
    let table = vec![entity(0, true, false, 1), entity(1, false, true, 2)];
    let mut t = TurnTimer::default();
    t.add(0);
    t.add(1);
    let on = t.set_active(true, &table);
    assert_eq!(on, vec![TurnAction::EndTurn(0), TurnAction::EndTurn(1), TurnAction::Notify]);
    let again = t.set_active(true, &table);
    assert_eq!(again, vec![TurnAction::Notify]);
    let off = t.set_active(false, &table);
    assert_eq!(off, vec![TurnAction::InitTurn(0), TurnAction::Notify]);
    assert!(!t.is_active());
}

#[test]
fn add_starts_the_turn_of_a_lone_entity() {
    let mut t = TurnTimer::default();
    assert_eq!(t.add(4), vec![TurnAction::InitTurn(4), TurnAction::Notify]);
    assert_eq!(t.add(2), vec![TurnAction::Notify]);
    assert_eq!(t.entity_order(), vec![4, 2]);
}

#[test]
fn current_is_the_front_in_turn_mode_only() {
    let table = vec![entity(0, true, false, 1), entity(1, false, true, 2)];
    let mut t = TurnTimer::default();
    t.add(1);
    t.add(0);
    assert_eq!(t.current(), None);
    t.set_active(true, &table);
    assert_eq!(t.current(), Some(1));
}

#[test]
fn next_moves_the_front_back_and_skips_idle_entities() {
    let table = vec![
        entity(0, true, false, 1),
        entity(1, false, false, 2),
        entity(2, false, false, 3),
        entity(3, false, true, 4),
    ];
    let mut t = TurnTimer::default();
    for e in [0, 1, 2, 3] {
        t.add(e);
    }
    t.set_active(true, &table);
    let a = t.next(&table);
    assert_eq!(t.entity_order(), vec![3, 0, 1, 2]);
    assert_eq!(a, vec![TurnAction::EndTurn(0), TurnAction::InitTurn(3), TurnAction::Notify]);
    let b = t.next(&table);
    assert_eq!(t.entity_order(), vec![0, 1, 2, 3]);
    assert_eq!(b, vec![TurnAction::EndTurn(3), TurnAction::InitTurn(0), TurnAction::Notify]);
    assert_eq!(t.current(), Some(0));
}

#[test]
fn next_outside_turn_mode_does_nothing() {
    let table = vec![entity(0, true, false, 1), entity(1, false, true, 2)];
    let mut t = TurnTimer::default();
    t.add(0);
    t.add(1);
    assert!(t.next(&table).is_empty());
    assert_eq!(t.entity_order(), vec![0, 1]);
    let mut empty = TurnTimer::default();
    empty.set_active(true, &table);
    assert!(empty.next(&table).is_empty());
}

#[test]
fn remove_ends_turn_mode_when_no_ai_is_left() {
    let table = vec![entity(0, true, false, 1), entity(1, false, true, 2), entity(2, false, false, 3)];
    let mut t = TurnTimer::default();
    for e in [0, 1, 2, 1] {
        t.add(e);
    }
    t.set_active(true, &table);
    let a = t.remove(2, &table);
    assert_eq!(a, vec![TurnAction::Notify]);
    assert!(t.is_active());
    assert_eq!(t.entity_order(), vec![0, 1, 1]);
    let b = t.remove(1, &table);
    assert_eq!(t.entity_order(), vec![0]);
    assert!(!t.is_active());
    assert_eq!(b, vec![TurnAction::InitTurn(0), TurnAction::Notify]);
}

#[test]
fn ai_that_sees_the_player_wakes_and_starts_turn_mode() {
    let mut table = vec![
        entity(0, true, false, 1),
        entity(1, false, false, 2),
        entity(2, false, false, 3),
    ];
    let mut t = TurnTimer::default();
    for e in [0, 1, 2] {
        t.add(e);
    }
    let none = t.check_ai_activation(&vec![false, false, false], &mut table);
    assert!(none.is_empty());
    assert!(!t.is_active());

    let a = t.check_ai_activation(&vec![true, false, true], &mut table);
    assert!(t.is_active());
    assert!(table[2].unwrap().ai_active);
    assert!(!table[1].unwrap().ai_active);
    assert!(!table[0].unwrap().ai_active);
    assert_eq!(t.entity_order(), vec![0, 1, 2]);
    assert_eq!(
        a,
        vec![
            TurnAction::EndTurn(0),
            TurnAction::EndTurn(1),
            TurnAction::EndTurn(2),
            TurnAction::Notify,
            TurnAction::InitTurn(0),
        ]
    );
}

#[test]
fn waking_turns_the_order_to_the_first_taker() {
    let mut table = vec![entity(0, false, false, 1), entity(1, false, false, 2), entity(2, true, false, 3)];
    let mut t = TurnTimer::default();
    for e in [1, 0, 2] {
        t.add(e);
    }
    t.check_ai_activation(&vec![true, false, false], &mut table);
    assert_eq!(t.entity_order(), vec![0, 2, 1]);
    assert_eq!(t.current(), Some(0));
}

#[test]
fn active_iter_lists_takers_in_turn_mode() {
    let table = vec![entity(0, true, false, 1), entity(1, false, false, 2), entity(2, false, true, 3)];
    let mut t = TurnTimer::default();
    for e in [2, 1, 0] {
        t.add(e);
    }
    let mut it = t.active_iter(&table);
    assert_eq!(it.next(), None);
    t.set_active(true, &table);
    let mut it = t.active_iter(&table);
    assert_eq!(it.next(), Some(2));
    assert_eq!(it.next(), Some(0));
    assert_eq!(it.next(), None);
    assert_eq!(it.next(), None);
}

#[test]
fn remove_after_add_restores_the_order() {
    let table = vec![entity(0, true, false, 1), entity(1, false, true, 2), entity(2, false, true, 3)];
    let mut t = TurnTimer::default();
    t.add(0);
    t.add(1);
    let before = t.entity_order();
    t.add(2);
    t.remove(2, &table);
    assert_eq!(t.entity_order(), before);
}
