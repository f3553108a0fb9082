use sulis::{
    Animation, Area, AreaBuilder, AreaState, ActorData, EntitySize, EntityState, GameError, GameState,
    GameStateMainLoopUpdater, Point, ResourceSet, Terrain, TurnAction,
};

fn area_with(id: &str, width: usize, height: usize, rows: Vec<Vec<bool>>, actors: Vec<ActorData>) -> Area {
    let resources = ResourceSet {
        sizes: std::collections::HashMap::from([(1, EntitySize { size: 1 })]),
        items: vec![],
        sprites: vec![],
    };
    let builder = AreaBuilder {
        id: id.to_string(),
        name: id.to_string(),
        width,
        height,
        terrain: vec![],
        generate: false,
        actors,
        transitions: vec![],
    };
    Area::new(builder, &resources, Terrain::from_rows(width, height, rows)).unwrap()
}

fn area(id: &str, width: usize, height: usize) -> Area {
    area_with(id, width, height, vec![vec![true; width]; height], vec![])
}

fn pc() -> EntityState {
    EntityState { uid: 7, index: 99, size: 1, is_pc: false, ai_active: false, initiative: 3, ap: 6, location: Point::new(0, 0) }
}

fn npc(uid: usize, ai_active: bool) -> EntityState {
    EntityState { uid, index: 99, size: 1, is_pc: false, ai_active, initiative: 1, ap: 2, location: Point::new(0, 0) }
}

fn game() -> GameState {
    let (g, actions) = GameState::new(AreaState::new(area("town", 5, 5)), Point::new(1, 2), pc()).unwrap();
    assert_eq!(actions, vec![TurnAction::InitTurn(0), TurnAction::Notify, TurnAction::InitTurn(0)]);
    g
}

#[test]
fn new_game_places_the_player_character() {
    let g = game();
    assert_eq!(g.pc(), 7);
    assert_eq!(g.pc_index(), 0);
    assert!(!g.is_exit());
    assert!(!g.is_in_turn_mode());
    let a = g.area_state();
    assert_eq!(a.area.id, "town");
    let s = a.entities[0].unwrap();
    assert_eq!(s.index, 0);
    assert_eq!(s.uid, 7);
    assert_eq!(s.location, Point::new(1, 2));
    assert!(s.is_pc);
    assert_eq!(a.turn_timer.entity_order(), vec![0]);
}

#[test]
fn new_game_refuses_a_bad_start() {
    match GameState::new(AreaState::new(area("town", 5, 5)), Point::new(5, 0), pc()) {
        Err(GameError::InvalidStartLocation) => {}
        _ => panic!("expected an invalid start"),
    }
    let mut rows = vec![vec![true; 5]; 5];
    rows[0][0] = false;
    let walled = area_with("town", 5, 5, rows, vec![]);
    match GameState::new(AreaState::new(walled), Point::new(0, 0), pc()) {
        Err(GameError::PcNotPlaced) => {}
        _ => panic!("expected the player character not to be placed"),
    }
    match GameState::setup_area_state(&"cave".to_string(), None, &vec![]) {
        Err(GameError::AreaNotFound { id }) => assert_eq!(id, "cave"),
        _ => panic!("expected a missing area"),
    }
}

#[test]
fn setup_populates_the_area() {
    let mut rows = vec![vec![true; 4]; 4];
    rows[3][3] = false;
    let actors = vec![
        ActorData { id: "guard".to_string(), location: Point::new(1, 1) },
        ActorData { id: "ghost".to_string(), location: Point::new(2, 2) },
        ActorData { id: "rat".to_string(), location: Point::new(3, 3) },
        ActorData { id: "cat".to_string(), location: Point::new(0, 2) },
    ];
    let cave = area_with("cave", 4, 4, rows, actors);
    let found = vec![Some(npc(1, false)), None, Some(npc(2, false)), Some(npc(3, true))];
    let (s, actions) = GameState::setup_area_state(&"cave".to_string(), Some(cave), &found).unwrap();
    assert_eq!(s.entities.len(), 2);
    let a = s.entities[0].unwrap();
    let b = s.entities[1].unwrap();
    assert_eq!((a.uid, a.index, a.location), (1, 0, Point::new(1, 1)));
    assert_eq!((b.uid, b.index, b.location), (3, 1, Point::new(0, 2)));
    assert!(!a.is_pc && !b.is_pc);
    assert_eq!(s.turn_timer.entity_order(), vec![0, 1]);
    assert_eq!(actions, vec![TurnAction::InitTurn(0), TurnAction::Notify, TurnAction::Notify]);
}

#[test]
fn flags_for_exit_and_combat() {
    let mut g = game();
    assert!(g.set_exit());
    assert!(g.is_exit());
    assert!(!g.check_clear_entering_combat());
    g.set_entering_combat();
    assert!(g.check_clear_entering_combat());
    assert!(!g.check_clear_entering_combat());
    let u = GameStateMainLoopUpdater {};
    assert!(u.is_exit(&g));
}

#[test]
fn animations_start_at_the_next_update() {
    let mut g = game();
    g.add_animation(Animation::new(4));
    assert!(!g.has_active_animations(4));
    assert_eq!(g.pending_animations().len(), 1);
    let (active, actions) = g.update(&vec![true], None, false);
    assert_eq!(active, 7);
    assert!(actions.is_empty());
    assert!(g.has_active_animations(4));
    assert!(!g.has_active_animations(5));
    assert!(g.pending_animations().is_empty());
}

#[test]
fn update_drops_finished_animations_and_checks_on_combat() {
    let mut g = game();
    g.add_animation(Animation::new(1));
    g.add_animation(Animation::new(2));
    g.add_animation(Animation::new(3));
    g.update(&vec![true, false, true], Some(3), false);
    let owners: Vec<usize> = g.playing_animations().iter().map(|a| a.owner).collect();
    assert_eq!(owners, vec![1, 3]);
    g.set_entering_combat();
    let u = GameStateMainLoopUpdater {};
    let (active, _) = u.update(&mut g, &vec![true, true], Some(3), false);
    assert_eq!(active, 3);
    let marks: Vec<bool> = g.playing_animations().iter().map(|a| a.marked_for_removal).collect();
    assert_eq!(marks, vec![false, true]);
    assert!(!g.check_clear_entering_combat());
}

#[test]
fn dead_player_character_ends_turn_mode() {
    let mut g = game();
    let (active, actions) = g.update(&vec![], None, true);
    assert_eq!(active, g.pc());
    assert_eq!(actions, vec![TurnAction::Notify]);
    assert!(!g.is_in_turn_mode());
}

#[test]
fn turn_queries_follow_the_current_area() {
    let mut s = AreaState::new(area("town", 5, 5));
    let (enemy, _) = s.add_entity(npc(11, true), Point::new(3, 3));
    let (g, _) = GameState::new(s, Point::new(1, 1), pc()).unwrap();
    assert_eq!(enemy, 0);
    assert_eq!(g.pc(), 7);
    assert_eq!(g.pc_index(), 1);
    assert!(!g.is_pc_current());
    assert!(!g.is_current(11));
    let mut order = g.area_state().turn_timer.entity_order();
    order.sort();
    assert_eq!(order, vec![0, 1]);
}

#[test]
fn movement_needs_action_points_and_a_path() {
    let mut g = game();
    let me = g.area_state().entities[0].unwrap();
    assert!(g.can_move_to(&me, 6, true));
    assert!(!g.can_move_to(&me, 7, true));
    assert!(!g.can_move_towards(&me, 1, false));
    assert!(g.can_move_towards_point(&npc(3, false), 0, true));
    assert!(!g.move_to(7, None, 100, Some(5)));
    assert!(g.playing_animations().is_empty());
    assert!(g.move_towards(7, Some(vec![Point::new(1, 3)]), 100, None));
    assert!(g.has_active_animations(7));
    assert!(g.move_to(7, Some(vec![Point::new(2, 2), Point::new(3, 2)]), 120, Some(5)));
    let marks: Vec<bool> = g.playing_animations().iter().map(|a| a.marked_for_removal).collect();
    assert_eq!(marks, vec![true, false]);
    let last = &g.playing_animations()[1];
    assert_eq!(last.path, vec![Point::new(2, 2), Point::new(3, 2)]);
    assert_eq!(last.base_time_millis, 120);
    assert_eq!(last.callback, Some(5));
}

#[test]
fn transition_within_the_current_area_keeps_the_pc() {
    let mut g = game();
    let (moved, _) = g.transition(None, 9, 9);
    assert!(!moved);
    assert_eq!(g.pc_index(), 0);
    let (moved, actions) = g.transition(None, 4, 4);
    assert!(moved);
    assert_eq!(g.pc(), 7);
    assert_eq!(g.pc_index(), 1);
    let a = g.area_state();
    assert!(a.entities[0].is_none());
    assert_eq!(a.entities[1].unwrap().location, Point::new(4, 4));
    assert_eq!(a.entities[1].unwrap().uid, 7);
    assert_eq!(a.turn_timer.entity_order(), vec![1]);
    assert_eq!(actions, vec![TurnAction::Notify, TurnAction::InitTurn(1), TurnAction::Notify]);
}

#[test]
fn transition_to_another_area() {
    let mut g = game();
    assert_eq!(g.get_area_state(&"cave".to_string()), None);
    let (index, actions) = g.area_for_transition(&"cave".to_string(), Some(area("cave", 3, 3)), &vec![]).unwrap();
    assert_eq!(index, 1);
    assert!(actions.is_empty());
    assert_eq!(g.get_area_state(&"cave".to_string()), Some(1));
    assert_eq!(g.get_area_state(&"town".to_string()), Some(0));
    let (moved, _) = g.transition(Some(1), 3, 0);
    assert!(!moved);
    assert_eq!(g.area_state().area.id, "town");
    let (moved, _) = g.transition(Some(1), 2, 0);
    assert!(moved);
    assert_eq!(g.area_state().area.id, "cave");
    assert_eq!(g.pc(), 7);
    assert_eq!(g.pc_index(), 0);
    assert_eq!(g.area_state().entities[0].unwrap().location, Point::new(2, 0));
    assert!(g.loaded_areas()[0].entities[0].is_none());
    assert!(g.loaded_areas()[0].turn_timer.entity_order().is_empty());
}

#[test]
fn area_for_transition_loads_once() {
    let mut g = game();
    assert_eq!(g.area_for_transition(&"town".to_string(), None, &vec![]).ok().map(|r| r.0), Some(0));
    match g.area_for_transition(&"cave".to_string(), None, &vec![]) {
        Err(GameError::AreaNotFound { id }) => assert_eq!(id, "cave"),
        _ => panic!("expected a missing area"),
    }
    assert_eq!(g.loaded_areas().len(), 1);
    assert_eq!(g.area_for_transition(&"cave".to_string(), Some(area("cave", 2, 2)), &vec![]).ok().map(|r| r.0), Some(1));
    assert_eq!(g.area_for_transition(&"cave".to_string(), Some(area("cave", 9, 9)), &vec![]).ok().map(|r| r.0), Some(1));
    assert_eq!(g.loaded_areas()[1].area.width, 2);
    assert_eq!(g.loaded_areas().len(), 2);
}

#[test]
fn area_state_add_and_remove() {
    let mut s = AreaState::new(area("town", 5, 5));
    let (a, first) = s.add_entity(npc(1, true), Point::new(1, 1));
    let (b, second) = s.add_entity(npc(2, false), Point::new(2, 1));
    assert_eq!((a, b), (0, 1));
    assert_eq!(first, vec![TurnAction::InitTurn(0), TurnAction::Notify]);
    assert_eq!(second, vec![TurnAction::Notify]);
    s.turn_timer.set_active(true, &s.entities);
    let removed = s.remove_entity(0);
    assert_eq!(removed, vec![TurnAction::Notify]);
    assert!(!s.turn_timer.is_active());
    assert!(s.entities[0].is_none());
    assert_eq!(s.turn_timer.entity_order(), vec![1]);
    let (placed, _) = s.add_actor(npc(3, false), Point::new(9, 9), false);
    assert!(!placed);
    let (placed, _) = s.add_actor(npc(3, false), Point::new(4, 4), true);
    assert!(placed);
    assert!(s.entities[2].unwrap().is_pc);
}

fn count_uid(g: &GameState, uid: usize) -> usize {
    g.loaded_areas().iter().map(|a| a.entities.iter().flatten().filter(|e| e.uid == uid).count()).sum()
}

#[test]
fn pc_identity_stays_unique_across_transitions() {
    let mut g = game();
    let actors = vec![
        ActorData { id: "guard".to_string(), location: Point::new(0, 0) },
        ActorData { id: "rat".to_string(), location: Point::new(1, 0) },
    ];
    let cave = area_with("cave", 3, 3, vec![vec![true; 3]; 3], actors);
    let found = vec![Some(npc(1, false)), Some(npc(2, false))];
    let (index, _) = g.area_for_transition(&"cave".to_string(), Some(cave), &found).unwrap();
    let (moved, _) = g.transition(Some(index), 2, 2);
    assert!(moved);
    assert_eq!(g.pc(), 7);
    assert_eq!(count_uid(&g, 7), 1);
    assert_eq!(g.area_state().entities[g.pc_index()].unwrap().uid, 7);
    let (moved, _) = g.transition(None, 1, 2);
    assert!(moved);
    assert_eq!(count_uid(&g, 7), 1);
    assert_eq!((count_uid(&g, 1), count_uid(&g, 2)), (1, 1));
    let (moved, _) = g.transition(Some(0), 3, 3);
    assert!(moved);
    assert_eq!(g.area_state().area.id, "town");
    assert_eq!(count_uid(&g, 7), 1);
    assert_eq!(g.pc(), 7);
}

#[test]
fn only_set_exit_sets_the_exit_flag() {
    let mut g = game();
    g.add_animation(Animation::new(7));
    assert!(!g.is_exit());
    g.set_entering_combat();
    let (active, _) = g.update(&vec![true], None, false);
    assert_eq!(active, 7);
    assert!(!g.is_exit());
    assert!(g.move_to(7, Some(vec![Point::new(1, 3)]), 50, Some(3)));
    g.area_for_transition(&"cave".to_string(), Some(area("cave", 2, 2)), &vec![]).unwrap();
    g.transition(Some(1), 1, 1);
    assert!(!g.is_exit());
    assert_eq!(g.pc(), 7);
    assert!(g.set_exit());
    assert!(g.is_exit());
    g.transition(Some(0), 0, 0);
    assert!(g.is_exit());
    assert_eq!(g.pc(), 7);
}

#[test]
fn path_grids_follow_the_terrain() {
    let mut rows = vec![vec![true; 4]; 3];
    rows[1][2] = false;
    let a = area_with("field", 4, 3, rows, vec![]);
    let grid = a.map.get_path_grid(1);
    assert_eq!((grid.width, grid.height), (4, 3));
    assert!(!grid.passable[1][2]);
    assert!(grid.passable[1][1]);
    assert!(!a.is_passable(1, Point::new(2, 1)));
    assert!(a.is_passable(1, Point::new(3, 2)));
    assert!(!a.is_passable(2, Point::new(0, 0)));
}
