use sulis::{
    Actor, ActorBuilder, ActorData, Area, AreaBuilder, EntitySize, Kind, MouseEvent,
    PathFinderGrid, Point, ResourceError, ResourceSet, Size, Terrain, TransitionBuilder,
};

fn open_terrain(width: usize, height: usize) -> Terrain {
    Terrain::from_rows(width, height, vec![vec![true; width]; height]).unwrap()
}

fn resources() -> ResourceSet {
    ResourceSet {
        sizes: std::collections::HashMap::from([(1, EntitySize { size: 1 }), (2, EntitySize { size: 2 })]),
        items: vec!["sword".to_string(), "shield".to_string()],
        sprites: vec!["hero".to_string(), "door".to_string()],
    }
}

fn builder(items: Option<Vec<&str>>, size: usize, sprite: &str) -> ActorBuilder {
    ActorBuilder {
        id: "hero".to_string(),
        player: None,
        text_display: 'h',
        image_display: sprite.to_string(),
        default_size: size,
        items: items.map(|v| v.into_iter().map(|s| s.to_string()).collect()),
    }
}

#[test]
fn mouse_event_keeps_kind_and_position() {
    let e = MouseEvent::new(Kind::Scroll(3), 10, -4);
    assert_eq!(e.kind, Kind::Scroll(3));
    assert_eq!(e.x, 10);
    assert_eq!(e.y, -4);
    let m = MouseEvent::new(Kind::Move(1, 2), 0, 0);
    assert_eq!(m.kind, Kind::Move(1, 2));
}

#[test]
fn point_bounds_and_add() {
    let mut p = Point::new(0, 0);
    assert!(p.in_bounds(1, 1));
    assert!(!p.in_bounds(0, 1));
    p.add(2, 3);
    assert_eq!(p, Point::new(2, 3));
    assert!(p.in_bounds(3, 4));
    assert!(!p.in_bounds(2, 4));
    assert!(!Point::new(-1, 0).in_bounds(5, 5));
    assert_eq!(Size::new(2, 3).width, 2);
}

#[test]
fn actor_is_built_from_known_resources() {
    let a = Actor::new(builder(Some(vec!["sword", "shield"]), 2, "hero"), &resources()).unwrap();
    assert_eq!(a.id, "hero");
    assert!(!a.player);
    assert_eq!(a.text_display, 'h');
    assert_eq!(a.image_display, "hero");
    assert_eq!(a.default_size, EntitySize { size: 2 });
    assert_eq!(a.items, vec!["sword".to_string(), "shield".to_string()]);

    let mut b = builder(None, 1, "hero");
    b.player = Some(true);
    let a = Actor::new(b, &resources()).unwrap();
    assert!(a.player);
    assert!(a.items.is_empty());
}

#[test]
fn actor_with_unknown_size_is_refused_first() {
    match Actor::new(builder(Some(vec!["axe"]), 7, "nobody"), &resources()) {
        Err(ResourceError::UnknownSize { owner, size }) => {
            assert_eq!(owner, "hero");
            assert_eq!(size, 7);
        }
        _ => panic!("expected an unknown size"),
    }
}

#[test]
fn actor_names_its_first_unknown_item() {
    match Actor::new(builder(Some(vec!["sword", "axe", "bow"]), 1, "nobody"), &resources()) {
        Err(ResourceError::UnknownItem { owner, item }) => {
            assert_eq!(owner, "hero");
            assert_eq!(item, "axe");
        }
        _ => panic!("expected an unknown item"),
    }
}

#[test]
fn actor_with_unknown_sprite_is_refused() {
    match Actor::new(builder(Some(vec!["sword"]), 1, "ghost"), &resources()) {
        Err(ResourceError::UnknownSprite { id }) => assert_eq!(id, "ghost"),
        _ => panic!("expected an unknown sprite"),
    }
}

#[test]
fn actors_are_equal_by_id() {
    let a = Actor::new(builder(None, 1, "hero"), &resources()).unwrap();
    let mut other = builder(Some(vec!["sword"]), 2, "door");
    other.text_display = 'x';
    let b = Actor::new(other, &resources()).unwrap();
    assert!(a == b);
    let mut third = builder(None, 1, "hero");
    third.id = "villain".to_string();
    let c = Actor::new(third, &resources()).unwrap();
    assert!(a != c);
    assert_eq!(builder(None, 1, "hero").owned_id(), "hero");
}

fn transition(x: i32, y: i32, w: i32, h: i32, sprite: &str) -> TransitionBuilder {
    TransitionBuilder {
        from: Point::new(x, y),
        size: Size::new(w, h),
        to: Point::new(1, 1),
        to_area: Some("cave".to_string()),
        image_display: sprite.to_string(),
        text_display: 'D',
    }
}

fn area_builder(transitions: Vec<TransitionBuilder>) -> AreaBuilder {
    AreaBuilder {
        id: "town".to_string(),
        name: "Town".to_string(),
        width: 10,
        height: 8,
        terrain: vec![("grass".to_string(), vec![vec![0; 10]; 8])],
        generate: false,
        actors: vec![ActorData { id: "guard".to_string(), location: Point::new(2, 2) }],
        transitions,
    }
}

#[test]
fn area_keeps_the_doorways_inside_it() {
    let b = area_builder(vec![
        transition(1, 1, 2, 2, "door"),
        transition(9, 1, 1, 1, "door"),
        transition(-1, 0, 1, 1, "door"),
        transition(7, 6, 2, 1, "door"),
        transition(20, 20, 1, 1, "door"),
    ]);
    let area = Area::new(b, &resources(), Ok(open_terrain(10, 8))).unwrap();
    assert_eq!(area.id, "town");
    assert_eq!(area.name, "Town");
    assert_eq!((area.width, area.height), (10, 8));
    assert_eq!(area.actors.len(), 1);
    assert_eq!(area.actors[0].id, "guard");
    let froms: Vec<Point> = area.transitions.iter().map(|t| t.from).collect();
    assert_eq!(froms, vec![Point::new(1, 1), Point::new(7, 6)]);
    assert_eq!(area.transitions[0].to_area, Some("cave".to_string()));
    assert_eq!(area.transitions[0].image_display, "door");
    assert_eq!(area.get_path_grid(2).size, 2);
    assert_eq!(area.get_path_grid(1).size, 1);
    assert_eq!(area.path_grids().len(), 2);
}

#[test]
fn area_refuses_an_unknown_doorway_sprite_even_outside_it() {
    let b = area_builder(vec![transition(1, 1, 1, 1, "door"), transition(50, 50, 1, 1, "gate")]);
    match Area::new(b, &resources(), Ok(open_terrain(10, 8))) {
        Err(ResourceError::UnknownSprite { id }) => assert_eq!(id, "gate"),
        _ => panic!("expected an unknown sprite"),
    }
}

#[test]
fn area_coordinates() {
    let area = Area::new(area_builder(vec![]), &resources(), Ok(open_terrain(10, 8))).unwrap();
    assert!(area.coords_valid(0, 0));
    assert!(area.coords_valid(9, 7));
    assert!(!area.coords_valid(10, 7));
    assert!(!area.coords_valid(9, 8));
    assert!(!area.coords_valid(-1, 3));
    let other = Area::new(area_builder(vec![]), &resources(), Ok(open_terrain(10, 8))).unwrap();
    assert!(area == other);
    assert_eq!(area_builder(vec![]).owned_id(), "town");
}

#[test]
fn area_passes_on_the_terrain_error() {
    let b = area_builder(vec![transition(1, 1, 1, 1, "gate")]);
    match Area::new(b, &resources(), Err(ResourceError::InvalidTerrain)) {
        Err(ResourceError::InvalidTerrain) => {}
        _ => panic!("expected the terrain error"),
    }
}

#[test]
fn terrain_must_match_its_extent() {
    assert!(matches!(Terrain::from_rows(2, 2, vec![vec![true; 2]]), Err(ResourceError::InvalidTerrain)));
    assert!(matches!(
        Terrain::from_rows(2, 2, vec![vec![true; 2], vec![true; 3]]),
        Err(ResourceError::InvalidTerrain)
    ));
    let t = Terrain::from_rows(3, 2, vec![vec![true, false, true], vec![true, true, true]]).unwrap();
    assert_eq!((t.width(), t.height()), (3, 2));
    assert!(t.is_passable(0, 0));
    assert!(!t.is_passable(1, 0));
    assert!(!t.is_passable(3, 0));
}

#[test]
fn path_grid_marks_where_a_footprint_fits() {
    // . # .
    // . . .
    // . . .
    let t = Terrain::from_rows(
        3,
        3,
        vec![vec![true, false, true], vec![true, true, true], vec![true, true, true]],
    )
    .unwrap();
    let one = PathFinderGrid::new(EntitySize { size: 1 }, &t);
    assert_eq!(one.passable, vec![vec![true, false, true], vec![true, true, true], vec![true, true, true]]);
    let two = PathFinderGrid::new(EntitySize { size: 2 }, &t);
    assert_eq!(two.passable, vec![vec![false, false, false], vec![true, true, false], vec![false, false, false]]);
    assert!(two.is_passable(0, 1));
    assert!(!two.is_passable(-1, 1));
    let zero = PathFinderGrid::new(EntitySize { size: 0 }, &t);
    assert_eq!(zero.passable, vec![vec![true; 3]; 3]);
}

#[test]
fn area_keeps_terrain_and_grids_and_checks_footing() {
    let rows = vec![vec![true; 10]; 8];
    let mut rows2 = rows.clone();
    rows2[2][3] = false;
    let t = Terrain::from_rows(10, 8, rows2).unwrap();
    let area = Area::new(area_builder(vec![]), &resources(), Ok(t)).unwrap();
    assert_eq!(area.terrain().width(), 10);
    assert!(!area.terrain().is_passable(3, 2));
    assert!(!area.get_path_grid(1).passable[2][3]);
    assert!(!area.is_passable(1, Point::new(3, 2)));
    assert!(area.is_passable(1, Point::new(4, 2)));
    assert!(!area.is_passable(2, Point::new(2, 1)));
    assert!(area.is_passable(2, Point::new(4, 2)));
    assert!(!area.is_passable(3, Point::new(0, 0)));
    assert!(!area.is_passable(1, Point::new(10, 0)));
}

#[test]
fn doorway_after_an_unknown_sprite_is_not_reached() {
    let b = area_builder(vec![
        transition(1, 1, 1, 1, "gate"),
        transition(1, 1, i32::MAX, 1, "door"),
    ]);
    match Area::new(b, &resources(), Ok(open_terrain(10, 8))) {
        Err(ResourceError::UnknownSprite { id }) => assert_eq!(id, "gate"),
        _ => panic!("expected an unknown sprite"),
    }
}
