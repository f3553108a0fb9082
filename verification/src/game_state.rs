use vstd::prelude::*;

use crate::area::{can_stand, Area};
use crate::area_state::{add_actions, area_state_wf, fresh_in, placed, populate_spec, AreaState};
use crate::entity::{
    has_uid, lemma_clear_uid, lemma_push_uid, lemma_uid_slot, live, state_at, uids_distinct,
    EntityState, TurnAction,
};
use crate::geometry::{spec_in_bounds, Point};
use crate::turn_timer::{current_of, no_ai_active, set_active_actions, without};

verus! {

/// An animation playing in the current area, owned by an entity.
pub struct Animation {
    /// The identity of the entity that the animation belongs to.
    pub owner: usize,
    /// Whether the animation is to stop at its next update.
    pub marked_for_removal: bool,
    /// The points a move follows, in order; none for an animation that is not a move.
    pub path: Vec<Point>,
    /// The time each step of a move takes, in milliseconds.
    pub base_time_millis: u32,
    /// The handle of the script callback to run when the animation ends, if any.
    pub callback: Option<usize>,
}

impl Animation {
    /// A new animation of `owner` that is not a move, not marked for removal.
    pub fn new(owner: usize) -> (a: Animation)
        ensures
            a.owner == owner,
            !a.marked_for_removal,
            a.path@ == Seq::<Point>::empty(),
            a.base_time_millis == 0,
            a.callback is None,
    {
        Animation { owner, marked_for_removal: false, path: Vec::new(), base_time_millis: 0, callback: None }
    }

    /// A move of `owner` along `path`, each step taking `base_time_millis`, running the
    /// callback `callback` at its end.
    pub fn new_move(owner: usize, path: Vec<Point>, base_time_millis: u32, callback: Option<usize>) -> (a: Animation)
        ensures
            a == (Animation { owner, marked_for_removal: false, path, base_time_millis, callback }),
    {
        Animation { owner, marked_for_removal: false, path, base_time_millis, callback }
    }

    pub fn get_owner(&self) -> (r: usize)
        ensures
            r == self.owner,
    {
        self.owner
    }

    /// Marks the animation for removal when it belongs to `entity`.
    pub fn check(&mut self, entity: usize)
        ensures
            *final(self) == checked(*old(self), entity),
    {
        if self.owner == entity {
            self.marked_for_removal = true;
        }
    }
}

/// `a` after it is checked against `entity`.
pub open spec fn checked(a: Animation, entity: usize) -> Animation {
    Animation { marked_for_removal: a.marked_for_removal || a.owner == entity, ..a }
}

/// `anims` after each is checked against `entity`.
pub open spec fn checked_against(anims: Seq<Animation>, entity: usize) -> Seq<Animation> {
    anims.map_values(|a: Animation| checked(a, entity))
}

/// The animations of `anims` whose flag in `keep` is set, in order.
pub open spec fn kept_animations(anims: Seq<Animation>, keep: Seq<bool>) -> Seq<Animation>
    decreases anims.len(),
{
    if anims.len() == 0 {
        Seq::empty()
    } else {
        let rest = kept_animations(anims.drop_last(), keep);
        if keep[anims.len() - 1] {
            rest.push(anims.last())
        } else {
            rest
        }
    }
}

/// Whether one of `areas` has the id `id`.
pub open spec fn area_loaded(areas: Seq<AreaState>, id: Seq<char>) -> bool {
    exists|j: int| 0 <= j < areas.len() && (#[trigger] areas[j]).area.id@ == id
}

/// Whether some loaded area holds an entity with the identity `u`.
pub open spec fn loaded_has_uid(areas: Seq<AreaState>, u: usize) -> bool {
    exists|a: int| 0 <= a < areas.len() && #[trigger] has_uid(areas[a].entities@, u)
}

/// Whether no two loaded areas hold entities with the same identity.
pub open spec fn uids_unique(areas: Seq<AreaState>) -> bool {
    forall|a: int, b: int, u: usize|
        #![trigger has_uid(areas[a].entities@, u), has_uid(areas[b].entities@, u)]
        0 <= a < areas.len() && 0 <= b < areas.len() && a != b && has_uid(areas[a].entities@, u)
            ==> !has_uid(areas[b].entities@, u)
}

/// Whether no two loaded areas have the same id.
pub open spec fn ids_distinct(areas: Seq<AreaState>) -> bool {
    forall|i: int, j: int|
        0 <= i < areas.len() && 0 <= j < areas.len() && i != j ==> (#[trigger] areas[i]).area.id@
            != (#[trigger] areas[j]).area.id@
}

/// Whether the only entity of the loaded areas with the identity `u` is the one in the slot
/// `i` of the area at `a`.
pub open spec fn only_slot(areas: Seq<AreaState>, u: usize, a: int, i: usize) -> bool {
    forall|b: int, j: int|
        0 <= b < areas.len() && 0 <= j < areas[b].entities@.len() && (#[trigger] areas[b].entities@[j]) is Some
            && areas[b].entities@[j].unwrap().uid == u ==> b == a && j == i
}

/// Whether the descriptions `found` carry identities that differ from each other and from
/// those of every entity of the loaded areas.
pub open spec fn fresh_for(found: Seq<Option<EntityState>>, areas: Seq<AreaState>) -> bool {
    &&& uids_distinct(found)
    &&& forall|k: int| 0 <= k < found.len() && (#[trigger] found[k]) is Some ==> !loaded_has_uid(areas, found[k].unwrap().uid)
}

/// The calls that change a running game.
pub enum GameCall {
    CheckClearEnteringCombat,
    SetEnteringCombat,
    InsertAreaState,
    AreaForTransition,
    SetExit,
    AddAnimation,
    Transition,
    Update,
    Move,
}

/// What the call `c` keeps when it changes `old` into `new`: the player character keeps its
/// identity, and the exit flag changes only by `SetExit`, which sets it.
pub open spec fn call_keeps(old: GameState, new: GameState, c: GameCall) -> bool {
    &&& new.pc_id() == old.pc_id()
    &&& if c is SetExit {
        new.exiting()
    } else {
        new.exiting() == old.exiting()
    }
}

/// Why the game could not start or go on.
#[derive(Debug)]
pub enum GameError {
    /// No area has the id `id`.
    AreaNotFound { id: String },
    /// The starting location lies outside the starting area.
    InvalidStartLocation,
    /// The player character cannot stand at the starting location.
    PcNotPlaced,
}

/// What the turn order asks when the entity `e` leaves it: see `TurnTimer::remove`.
pub open spec fn remove_actions(
    q: Seq<usize>,
    t: Seq<Option<EntityState>>,
    mode: bool,
    e: usize,
) -> Seq<TurnAction> {
    if no_ai_active(without(q, e), t) {
        set_active_actions(without(q, e), t, mode, false)
    } else {
        seq![TurnAction::Notify]
    }
}

/// The turn mode after the entity `e` leaves the order `q`.
pub open spec fn mode_after_remove(
    q: Seq<usize>,
    t: Seq<Option<EntityState>>,
    mode: bool,
    e: usize,
) -> bool {
    if no_ai_active(without(q, e), t) {
        false
    } else {
        mode
    }
}

/// Whether an entity with the state `e` can move: it has at least `movement_ap` action points
/// left, and a path was found for it.
pub open spec fn can_move(e: EntityState, movement_ap: u32, path_found: bool) -> bool {
    e.ap >= movement_ap && path_found
}

/// The position of the first of `areas` with the id `id`, if any.
pub open spec fn first_area_with_id(areas: Seq<AreaState>, id: Seq<char>) -> Option<int>
    decreases areas.len(),
{
    if areas.len() == 0 {
        None
    } else {
        match first_area_with_id(areas.drop_last(), id) {
            Some(i) => Some(i),
            None => if areas.last().area.id@ == id {
                Some(areas.len() - 1)
            } else {
                None
            },
        }
    }
}

/// The whole state of a running game: the loaded areas, the current one, the player
/// character, and the animations that play.
pub struct GameState {
    areas: Vec<AreaState>,
    current: usize,
    pc: usize,
    pc_slot: usize,
    pc_area: usize,
    should_exit: bool,
    entering_combat: bool,
    animations: Vec<Animation>,
    anims_to_add: Vec<Animation>,
}

/// How one step of the game loop changes `old` into `new`, given the flags `keep` of the
/// animations that go on, the entity `area_active` that the current area says is active, and
/// whether the player character is dead; `r` is the active entity and the turn-order calls.
pub open spec fn updated(
    old: GameState,
    new: GameState,
    keep: Seq<bool>,
    area_active: Option<usize>,
    pc_dead: bool,
    r: (usize, Seq<TurnAction>),
) -> bool {
    let active = match area_active {
        Some(a) => a,
        None => old.pc_id(),
    };
    let kept = kept_animations(old.playing() + old.pending(), keep);
    let cur = old.current_area();
    &&& new.well_formed()
    &&& r.0 == active
    &&& new.pending() == Seq::<Animation>::empty()
    &&& new.playing() == if old.combat_entering() {
        checked_against(kept, active)
    } else {
        kept
    }
    &&& !new.combat_entering()
    &&& new.current_index() == old.current_index()
    &&& new.pc_id() == old.pc_id()
    &&& new.pc_slot() == old.pc_slot()
    &&& new.pc_area_index() == old.pc_area_index()
    &&& new.exiting() == old.exiting()
    &&& new.areas().len() == old.areas().len()
    &&& pc_dead ==> {
        &&& forall|i: int|
            0 <= i < old.areas().len() && i != old.current_index() ==> new.areas()[i]
                == old.areas()[i]
        &&& new.current_area().area == cur.area
        &&& new.current_area().entities == cur.entities
        &&& new.current_area().turn_timer.order() == cur.turn_timer.order()
        &&& !new.current_area().turn_timer.turn_mode()
        &&& r.1 == set_active_actions(
            cur.turn_timer.order(),
            cur.entities@,
            cur.turn_timer.turn_mode(),
            false,
        )
    }
    &&& !pc_dead ==> new.areas() == old.areas() && r.1 == Seq::<TurnAction>::empty()
}

/// `new` differs from `old` at most in its animations.
pub open spec fn same_but_animations(old: GameState, new: GameState) -> bool {
    &&& new.well_formed() == old.well_formed()
    &&& new.areas() == old.areas()
    &&& new.current_index() == old.current_index()
    &&& new.pc_id() == old.pc_id()
    &&& new.pc_slot() == old.pc_slot()
    &&& new.pc_area_index() == old.pc_area_index()
    &&& new.exiting() == old.exiting()
    &&& new.combat_entering() == old.combat_entering()
}

/// `new` differs from `old` at most in its flags for exit and combat.
pub open spec fn same_but_flags(old: GameState, new: GameState) -> bool {
    &&& new.well_formed() == old.well_formed()
    &&& new.areas() == old.areas()
    &&& new.current_index() == old.current_index()
    &&& new.pc_id() == old.pc_id()
    &&& new.pc_slot() == old.pc_slot()
    &&& new.pc_area_index() == old.pc_area_index()
    &&& new.playing() == old.playing()
    &&& new.pending() == old.pending()
}

impl GameState {
    /// The current area and the area of the player character are loaded areas, each loaded
    /// area is well formed, and the player character fills its slot in its area.
    pub closed spec fn well_formed(&self) -> bool {
        &&& self.current < self.areas@.len()
        &&& self.pc_area == self.current
        &&& forall|i: int| 0 <= i < self.areas@.len() ==> area_state_wf(#[trigger] self.areas@[i])
        &&& ids_distinct(self.areas@)
        &&& uids_unique(self.areas@)
        &&& live(self.areas@[self.pc_area as int].entities@, self.pc_slot)
        &&& state_at(self.areas@[self.pc_area as int].entities@, self.pc_slot).uid == self.pc
    }

    /// The loaded areas.
    pub closed spec fn areas(&self) -> Seq<AreaState> {
        self.areas@
    }

    /// The position of the current area among the loaded ones.
    pub closed spec fn current_index(&self) -> usize {
        self.current
    }

    /// The identity of the player character.
    pub closed spec fn pc_id(&self) -> usize {
        self.pc
    }

    /// The slot of the player character in its area.
    pub closed spec fn pc_slot(&self) -> usize {
        self.pc_slot
    }

    /// The position of the area that holds the player character.
    pub closed spec fn pc_area_index(&self) -> usize {
        self.pc_area
    }

    /// Whether the game is to exit.
    pub closed spec fn exiting(&self) -> bool {
        self.should_exit
    }

    /// Whether the game is entering combat.
    pub closed spec fn combat_entering(&self) -> bool {
        self.entering_combat
    }

    /// The animations that play.
    pub closed spec fn playing(&self) -> Seq<Animation> {
        self.animations@
    }

    /// The animations that start playing at the next update.
    pub closed spec fn pending(&self) -> Seq<Animation> {
        self.anims_to_add@
    }

    /// The current area.
    pub open spec fn current_area(&self) -> AreaState {
        self.areas()[self.current_index() as int]
    }

    /// What a well formed game state holds: its current area is loaded and holds the player
    /// character, every loaded area is well formed, no two loaded areas share an id, no two
    /// entities of the loaded areas share an identity, and the player character fills its slot
    /// in the current area under its identity, the only slot with that identity.
    pub proof fn lemma_well_formed(&self)
        requires
            self.well_formed(),
        ensures
            self.current_index() < self.areas().len(),
            self.pc_area_index() == self.current_index(),
            forall|i: int| 0 <= i < self.areas().len() ==> area_state_wf(#[trigger] self.areas()[i]),
            ids_distinct(self.areas()),
            uids_unique(self.areas()),
            live(self.areas()[self.pc_area_index() as int].entities@, self.pc_slot()),
            state_at(self.areas()[self.pc_area_index() as int].entities@, self.pc_slot()).uid
                == self.pc_id(),
            only_slot(self.areas(), self.pc_id(), self.pc_area_index() as int, self.pc_slot()),
    {
        lemma_only_slot(self.areas@, self.pc_area as int, self.pc_slot);
    }

    /// The loaded state of the area `area_id`, with each of its actors placed: `area` is the
    /// area that the module holds under that id, if any, and `found` the description of each
    /// of its actors (none where the module knows no such actor). With no such area, the error
    /// names the id. Returns the area state and what its turn order asks.
    pub fn setup_area_state(area_id: &String, area: Option<Area>, found: &Vec<Option<EntityState>>) -> (r: Result<
        (AreaState, Vec<TurnAction>),
        GameError,
    >)
        requires
            area matches Some(a) ==> found@.len() == a.actors@.len()
                && found@.len() < usize::MAX && uids_distinct(found@),
        ensures
            area is None ==> (r matches Err(GameError::AreaNotFound { id }) && id@ == area_id@),
            area matches Some(a) ==> (r matches Ok((s, actions)) && {
                let p = populate_spec(a, found@, Seq::empty(), Seq::empty(), found@.len() as int);
                &&& s.area == a
                &&& s.entities@ == p.0
                &&& s.turn_timer.order() == p.1
                &&& actions@ == p.2
                &&& !s.turn_timer.turn_mode()
                &&& area_state_wf(s)
                &&& forall|u: usize| #[trigger] has_uid(s.entities@, u) ==> has_uid(found@, u)
            }),
    {
        match area {
            Some(a) => {
                let mut s = AreaState::new(a);
                proof {
                    assert forall|k: int| 0 <= k < found@.len() && (#[trigger] found@[k]) is Some implies !has_uid(
                        s.entities@,
                        found@[k].unwrap().uid,
                    ) by {}
                    assert forall|u: usize| !has_uid(s.entities@, u) by {}
                }
                let actions = s.populate(found);
                Ok((s, actions))
            },
            None => Err(GameError::AreaNotFound { id: area_id.clone() }),
        }
    }

    /// Starts a game in `area_state`, with the player character `pc` at `start`. The start
    /// must lie in the area, and the player character must be able to stand there; it then
    /// joins the area as the player character and starts its turn.
    pub fn new(area_state: AreaState, start: Point, pc: EntityState) -> (r: Result<
        (GameState, Vec<TurnAction>),
        GameError,
    >)
        requires
            area_state_wf(area_state),
            area_state.entities@.len() < usize::MAX,
            !has_uid(area_state.entities@, pc.uid),
        ensures
            !spec_in_bounds(
                start.x as int,
                start.y as int,
                area_state.area.width as int,
                area_state.area.height as int,
            ) ==> (r matches Err(GameError::InvalidStartLocation)),
            spec_in_bounds(
                start.x as int,
                start.y as int,
                area_state.area.width as int,
                area_state.area.height as int,
            ) && !can_stand(area_state.area, pc.size, start) ==> (r matches Err(GameError::PcNotPlaced)),
            can_stand(area_state.area, pc.size, start) ==> (r matches Ok((g, actions)) && {
                let index = area_state.entities@.len() as usize;
                &&& g.well_formed()
                &&& g.areas().len() == 1
                &&& g.current_index() == 0
                &&& g.pc_area_index() == 0
                &&& g.pc_id() == pc.uid
                &&& g.pc_slot() == index
                &&& g.areas()[0].area == area_state.area
                &&& g.areas()[0].entities@ == area_state.entities@.push(
                    Some(placed(pc, index, start, true)),
                )
                &&& g.areas()[0].turn_timer.order() == area_state.turn_timer.order().push(index)
                &&& g.areas()[0].turn_timer.turn_mode() == area_state.turn_timer.turn_mode()
                &&& !g.exiting()
                &&& !g.combat_entering()
                &&& g.playing().len() == 0
                &&& g.pending().len() == 0
                &&& actions@ == add_actions(area_state.turn_timer.order(), index).push(
                    TurnAction::InitTurn(index),
                )
            }),
    {
        if !Self::check_location(&start, &area_state) {
            return Err(GameError::InvalidStartLocation);
        }
        let mut area_state = area_state;
        let index = area_state.entities.len();
        let (ok, mut actions) = area_state.add_actor(pc, start, true);
        if !ok {
            return Err(GameError::PcNotPlaced);
        }
        actions.push(TurnAction::InitTurn(index));
        let mut areas: Vec<AreaState> = Vec::new();
        areas.push(area_state);
        proof {
            assert(areas@[0] == area_state);
            assert(ids_distinct(areas@));
            assert(uids_unique(areas@));
        }
        let g = GameState {
            areas,
            current: 0,
            pc: pc.uid,
            pc_slot: index,
            pc_area: 0,
            should_exit: false,
            entering_combat: false,
            animations: Vec::new(),
            anims_to_add: Vec::new(),
        };
        Ok((g, actions))
    }

    /// Whether `p` lies inside the area of `area_state`.
    pub fn check_location(p: &Point, area_state: &AreaState) -> (r: bool)
        ensures
            r == spec_in_bounds(
                p.x as int,
                p.y as int,
                area_state.area.width as int,
                area_state.area.height as int,
            ),
    {
        area_state.area.coords_valid(p.x, p.y)
    }

    /// Whether the game is entering combat; the flag is cleared.
    pub fn check_clear_entering_combat(&mut self) -> (r: bool)
        ensures
            r == old(self).combat_entering(),
            !final(self).combat_entering(),
            call_keeps(*old(self), *final(self), GameCall::CheckClearEnteringCombat),
            final(self).exiting() == old(self).exiting(),
            same_but_flags(*old(self), *final(self)),
    {
        let r = self.entering_combat;
        self.entering_combat = false;
        r
    }

    /// Marks the game as entering combat.
    pub fn set_entering_combat(&mut self)
        ensures
            final(self).combat_entering(),
            call_keeps(*old(self), *final(self), GameCall::SetEnteringCombat),
            final(self).exiting() == old(self).exiting(),
            same_but_flags(*old(self), *final(self)),
    {
        self.entering_combat = true;
    }

    /// The position of the first loaded area whose id is `id`, if any.
    pub fn get_area_state(&self, id: &String) -> (r: Option<usize>)
        ensures
            r matches Some(i) ==> i < self.areas().len() && self.areas()[i as int].area.id@ == id@
                && forall|j: int| 0 <= j < i ==> (#[trigger] self.areas()[j]).area.id@ != id@,
            r is None ==> !area_loaded(self.areas(), id@),
    {
        let mut i: usize = 0;
        while i < self.areas.len()
            invariant
                i <= self.areas@.len(),
                forall|j: int| 0 <= j < i ==> (#[trigger] self.areas@[j]).area.id@ != id@,
            decreases self.areas.len() - i,
        {
            if self.areas[i].area.id == *id {
                return Some(i);
            }
            i = i + 1;
        }
        None
    }

    /// Adds a newly loaded area; returns its position.
    pub fn insert_area_state(&mut self, area_state: AreaState) -> (r: usize)
        requires
            old(self).well_formed(),
            area_state_wf(area_state),
            old(self).areas().len() < usize::MAX,
            !area_loaded(old(self).areas(), area_state.area.id@),
            forall|u: usize| #[trigger] has_uid(area_state.entities@, u) ==> !loaded_has_uid(old(self).areas(), u),
        ensures
            final(self).well_formed(),
            call_keeps(*old(self), *final(self), GameCall::InsertAreaState),
            r == old(self).areas().len(),
            final(self).areas() == old(self).areas().push(area_state),
            final(self).current_index() == old(self).current_index(),
            final(self).pc_id() == old(self).pc_id(),
            final(self).pc_slot() == old(self).pc_slot(),
            final(self).pc_area_index() == old(self).pc_area_index(),
            final(self).exiting() == old(self).exiting(),
            final(self).combat_entering() == old(self).combat_entering(),
            final(self).playing() == old(self).playing(),
            final(self).pending() == old(self).pending(),
    {
        let r = self.areas.len();
        self.areas.push(area_state);
        proof {
            assert forall|i: int| 0 <= i < self.areas@.len() implies area_state_wf(
                #[trigger] self.areas@[i],
            ) by {
                if i < old(self).areas@.len() {
                    assert(self.areas@[i] == old(self).areas@[i]);
                }
            }
            assert(self.areas@[self.pc_area as int] == old(self).areas@[self.pc_area as int]);
            let o = old(self).areas@;
            let n = self.areas@;
            assert(n[r as int] == area_state);
            assert forall|i: int, j: int|
                0 <= i < n.len() && 0 <= j < n.len() && i != j implies (#[trigger] n[i]).area.id@
                != (#[trigger] n[j]).area.id@ by {
                if i < o.len() && j < o.len() {
                    assert(n[i] == o[i] && n[j] == o[j]);
                } else if i < o.len() {
                    assert(n[i] == o[i]);
                } else {
                    assert(n[j] == o[j]);
                }
            }
            assert forall|a: int, b: int, u: usize|
                0 <= a < n.len() && 0 <= b < n.len() && a != b && has_uid(n[a].entities@, u)
                    implies !has_uid(n[b].entities@, u) by {
                if a < o.len() && b < o.len() {
                    assert(n[a] == o[a] && n[b] == o[b]);
                } else if a < o.len() {
                    assert(n[a] == o[a]);
                    assert(loaded_has_uid(o, u));
                } else {
                    assert(n[b] == o[b]);
                    if has_uid(n[b].entities@, u) {
                        assert(loaded_has_uid(o, u));
                    }
                }
            }
        }
        r
    }

    /// The position of the loaded area `area_id`, with no turn-order calls. When none is
    /// loaded, `area` (the area that the module holds under that id, if any, with `found` the
    /// descriptions of its actors) is loaded, populated and added; with no such area, the
    /// error names the id.
    pub fn area_for_transition(&mut self, area_id: &String, area: Option<Area>, found: &Vec<Option<EntityState>>) -> (r: Result<
        (usize, Vec<TurnAction>),
        GameError,
    >)
        requires
            old(self).well_formed(),
            old(self).areas().len() < usize::MAX,
            area matches Some(a) ==> a.id@ == area_id@ && found@.len()
                == a.actors@.len() && found@.len() < usize::MAX,
            !area_loaded(old(self).areas(), area_id@) && area is Some ==> fresh_for(found@, old(self).areas()),
        ensures
            final(self).well_formed(),
            call_keeps(*old(self), *final(self), GameCall::AreaForTransition),
            final(self).current_index() == old(self).current_index(),
            final(self).pc_id() == old(self).pc_id(),
            final(self).pc_slot() == old(self).pc_slot(),
            final(self).pc_area_index() == old(self).pc_area_index(),
            final(self).exiting() == old(self).exiting(),
            final(self).combat_entering() == old(self).combat_entering(),
            final(self).playing() == old(self).playing(),
            final(self).pending() == old(self).pending(),
            area_loaded(old(self).areas(), area_id@) ==> (r matches Ok((i, actions))
                && Some(i as int) == first_area_with_id(old(self).areas(), area_id@)
                && actions@ == Seq::<TurnAction>::empty()
                && final(self).areas() == old(self).areas()),
            !area_loaded(old(self).areas(), area_id@) && area is None ==> (
            r matches Err(GameError::AreaNotFound { id }) && id@ == area_id@ && final(self).areas()
                == old(self).areas()),
            !area_loaded(old(self).areas(), area_id@) ==> (area matches Some(a) ==> (r matches Ok((i, actions))
                && {
                let p = populate_spec(a, found@, Seq::empty(), Seq::empty(), found@.len() as int);
                &&& i == old(self).areas().len()
                &&& final(self).areas().len() == i + 1
                &&& final(self).areas().subrange(0, i as int) == old(self).areas()
                &&& final(self).areas()[i as int].area == a
                &&& final(self).areas()[i as int].entities@ == p.0
                &&& final(self).areas()[i as int].turn_timer.order() == p.1
                &&& !final(self).areas()[i as int].turn_timer.turn_mode()
                &&& actions@ == p.2
                &&& Some(i as int) == first_area_with_id(final(self).areas(), area_id@)
            })),
    {
        match self.get_area_state(area_id) {
            Some(i) => {
                proof {
                    lemma_first_area_with_id(self.areas(), area_id@, i as int);
                }
                Ok((i, Vec::new()))
            },
            None => {
                let (area_state, actions) = match Self::setup_area_state(area_id, area, found) {
                    Ok(s) => s,
                    Err(e) => {
                        return Err(e);
                    },
                };
                proof {
                    if area is Some {
                        assert(area_state.area.id@ == area_id@);
                        assert forall|u: usize| #[trigger] has_uid(area_state.entities@, u) implies !loaded_has_uid(
                            self.areas(),
                            u,
                        ) by {
                            assert(has_uid(found@, u));
                            let k = choose|k: int| 0 <= k < found@.len() && (#[trigger] found@[k]) is Some && found@[k].unwrap().uid == u;
                        }
                    }
                }
                let i = self.insert_area_state(area_state);
                proof {
                    assert(self.areas().subrange(0, i as int) =~= old(self).areas());
                    assert forall|j: int| 0 <= j < i implies (#[trigger] self.areas()[j]).area.id@ != area_id@ by {
                        assert(self.areas()[j] == old(self).areas()[j]);
                    }
                    lemma_first_area_with_id(self.areas(), area_id@, i as int);
                }
                Ok((i, actions))
            },
        }
    }

    /// Whether the game is to exit.
    pub fn is_exit(&self) -> (r: bool)
        ensures
            r == self.exiting(),
    {
        self.should_exit
    }

    /// Marks the game as to exit; always true.
    pub fn set_exit(&mut self) -> (r: bool)
        ensures
            r,
            final(self).exiting(),
            call_keeps(*old(self), *final(self), GameCall::SetExit),
            final(self).combat_entering() == old(self).combat_entering(),
            same_but_flags(*old(self), *final(self)),
    {
        self.should_exit = true;
        true
    }

    /// The current area.
    pub fn area_state(&self) -> (r: &AreaState)
        requires
            self.well_formed(),
        ensures
            *r == self.current_area(),
    {
        &self.areas[self.current]
    }

    /// The loaded areas.
    pub fn loaded_areas(&self) -> (r: &Vec<AreaState>)
        ensures
            r@ == self.areas(),
    {
        &self.areas
    }

    /// The animations that play.
    pub fn playing_animations(&self) -> (r: &Vec<Animation>)
        ensures
            r@ == self.playing(),
    {
        &self.animations
    }

    /// The animations that start playing at the next update.
    pub fn pending_animations(&self) -> (r: &Vec<Animation>)
        ensures
            r@ == self.pending(),
    {
        &self.anims_to_add
    }

    /// The identity of the player character; it stays the same as the game goes on.
    pub fn pc(&self) -> (r: usize)
        ensures
            r == self.pc_id(),
    {
        self.pc
    }

    /// The slot of the player character in its area.
    pub fn pc_index(&self) -> (r: usize)
        ensures
            r == self.pc_slot(),
    {
        self.pc_slot
    }

    /// Whether an animation that plays belongs to `entity`.
    pub fn has_active_animations(&self, entity: usize) -> (r: bool)
        ensures
            r == exists|i: int| 0 <= i < self.playing().len() && (#[trigger] self.playing()[i]).owner == entity,
    {
        let mut i: usize = 0;
        while i < self.animations.len()
            invariant
                i <= self.animations@.len(),
                forall|j: int| 0 <= j < i ==> (#[trigger] self.animations@[j]).owner != entity,
            decreases self.animations.len() - i,
        {
            if self.animations[i].owner == entity {
                assert(self.playing()[i as int].owner == entity);
                return true;
            }
            i = i + 1;
        }
        false
    }

    /// Queues `anim`; it starts playing at the next update.
    pub fn add_animation(&mut self, anim: Animation)
        ensures
            final(self).pending() == old(self).pending().push(anim),
            call_keeps(*old(self), *final(self), GameCall::AddAnimation),
            final(self).playing() == old(self).playing(),
            same_but_animations(*old(self), *final(self)),
    {
        self.anims_to_add.push(anim);
    }

    /// Whether the game is in turn mode.
    pub fn is_in_turn_mode(&self) -> (r: bool)
        requires
            self.well_formed(),
        ensures
            r == self.current_area().turn_timer.turn_mode(),
    {
        self.area_state().turn_timer.is_active()
    }

    /// Whether the player character has the turn.
    pub fn is_pc_current(&self) -> (r: bool)
        requires
            self.well_formed(),
        ensures
            r == (current_of(
                self.current_area().turn_timer.order(),
                self.current_area().turn_timer.turn_mode(),
            ) matches Some(e) && state_at(self.current_area().entities@, e).is_pc),
    {
        let area_state = self.area_state();
        match area_state.turn_timer.current() {
            Some(e) => {
                proof {
                    assert(live(area_state.entities@, area_state.turn_timer.order()[0]));
                }
                match &area_state.entities[e] {
                    Some(s) => s.is_pc,
                    None => false,
                }
            },
            None => false,
        }
    }

    /// Whether the entity with identity `entity` has the turn.
    pub fn is_current(&self, entity: usize) -> (r: bool)
        requires
            self.well_formed(),
        ensures
            r == (current_of(
                self.current_area().turn_timer.order(),
                self.current_area().turn_timer.turn_mode(),
            ) matches Some(e) && state_at(self.current_area().entities@, e).uid == entity),
    {
        let area_state = self.area_state();
        match area_state.turn_timer.current() {
            Some(e) => {
                proof {
                    assert(live(area_state.entities@, area_state.turn_timer.order()[0]));
                }
                match &area_state.entities[e] {
                    Some(s) => s.uid == entity,
                    None => false,
                }
            },
            None => false,
        }
    }

    /// Moves the player character to `(x, y)` in the loaded area at position `target`, or in
    /// the current area when there is no target. When the point lies outside that area nothing
    /// happens. Otherwise that area becomes current, and the player character, keeping its
    /// identity, leaves its slot and takes the next free slot of the new area at the point.
    #[verifier::rlimit(50)]
    #[verifier::spinoff_prover]
    pub fn transition(&mut self, target: Option<usize>, x: i32, y: i32) -> (r: (bool, Vec<TurnAction>))
        requires
            old(self).well_formed(),
            target matches Some(t) ==> t < old(self).areas().len(),
            forall|i: int|
                0 <= i < old(self).areas().len() ==> (#[trigger] old(self).areas()[i]).entities@.len()
                    < usize::MAX,
        ensures
            final(self).well_formed(),
            call_keeps(*old(self), *final(self), GameCall::Transition),
            final(self).pc_id() == old(self).pc_id(),
            final(self).exiting() == old(self).exiting(),
            only_slot(
                final(self).areas(),
                final(self).pc_id(),
                final(self).pc_area_index() as int,
                final(self).pc_slot(),
            ),
            x < 0 || y < 0 ==> !r.0 && r.1@ == Seq::<TurnAction>::empty() && *final(self) == *old(self),
            final(self).areas().len() == old(self).areas().len(),
            forall|i: int|
                0 <= i < old(self).areas().len() ==> (#[trigger] final(self).areas()[i]).area == old(
                    self,
                ).areas()[i].area,
            ({
                let dest = match target {
                    Some(t) => t,
                    None => old(self).current_index(),
                };
                let from = old(self).pc_area_index();
                let e = old(self).pc_slot();
                let src = old(self).areas()[from as int];
                let dst = old(self).areas()[dest as int];
                let index = dst.entities@.len() as usize;
                let moved = EntityState {
                    index,
                    location: Point { x, y },
                    ..state_at(src.entities@, e)
                };
                let fin = final(self).areas();
                if !spec_in_bounds(x as int, y as int, dst.area.width as int, dst.area.height as int) {
                    &&& !r.0
                    &&& r.1@ == Seq::<TurnAction>::empty()
                    &&& *final(self) == *old(self)
                } else {
                    &&& r.0
                    &&& final(self).current_index() == dest
                    &&& final(self).pc_area_index() == dest
                    &&& final(self).pc_slot() == index
                    &&& state_at(fin[dest as int].entities@, index) == moved
                    &&& final(self).combat_entering() == old(self).combat_entering()
                    &&& final(self).playing() == old(self).playing()
                    &&& final(self).pending() == old(self).pending()
                    &&& fin.len() == old(self).areas().len()
                    &&& forall|i: int|
                        0 <= i < fin.len() && i != dest && i != from ==> fin[i] == old(self).areas()[i]
                    &&& fin[dest as int].area == dst.area
                    &&& fin[from as int].area == src.area
                    &&& if dest != from {
                        &&& fin[from as int].entities@ == src.entities@.update(e as int, None)
                        &&& fin[from as int].turn_timer.order() == without(src.turn_timer.order(), e)
                        &&& fin[from as int].turn_timer.turn_mode() == mode_after_remove(
                            src.turn_timer.order(),
                            src.entities@,
                            src.turn_timer.turn_mode(),
                            e,
                        )
                        &&& fin[dest as int].entities@ == dst.entities@.push(Some(moved))
                        &&& fin[dest as int].turn_timer.order() == dst.turn_timer.order().push(index)
                        &&& fin[dest as int].turn_timer.turn_mode() == dst.turn_timer.turn_mode()
                        &&& r.1@ == remove_actions(
                            src.turn_timer.order(),
                            src.entities@,
                            src.turn_timer.turn_mode(),
                            e,
                        ) + add_actions(dst.turn_timer.order(), index)
                    } else {
                        &&& fin[dest as int].entities@ == src.entities@.update(e as int, None).push(
                            Some(moved),
                        )
                        &&& fin[dest as int].turn_timer.order() == without(
                            src.turn_timer.order(),
                            e,
                        ).push(index)
                        &&& fin[dest as int].turn_timer.turn_mode() == mode_after_remove(
                            src.turn_timer.order(),
                            src.entities@,
                            src.turn_timer.turn_mode(),
                            e,
                        )
                        &&& r.1@ == remove_actions(
                            src.turn_timer.order(),
                            src.entities@,
                            src.turn_timer.turn_mode(),
                            e,
                        ) + add_actions(without(src.turn_timer.order(), e), index)
                    }
                }
            }),
    {
        let p = Point::new(x, y);
        let dest = match target {
            Some(t) => t,
            None => self.current,
        };
        if !Self::check_location(&p, &self.areas[dest]) {
            proof {
                self.lemma_well_formed();
            }
            return (false, Vec::new());
        }
        let ghost old_areas = self.areas@;
        let from = self.pc_area;
        let e = self.pc_slot;
        let pc_state = match &self.areas[from].entities[e] {
            Some(s) => *s,
            None => Animation::unreachable_state(),
        };
        assert(pc_state == state_at(old_areas[from as int].entities@, e));

        // the player character leaves its slot
        let mut src = self.areas.remove(from);
        assert(area_state_wf(src));
        let mut actions = src.remove_entity(e);
        self.areas.insert(from, src);
        let ghost mid = self.areas@;
        assert(forall|i: int| 0 <= i < mid.len() && i != from ==> mid[i] == old_areas[i]);
        assert(forall|i: int| 0 <= i < mid.len() ==> area_state_wf(#[trigger] mid[i]));

        // and takes a slot in the new current area
        proof {
            let t = old_areas[from as int].entities@;
            assert(t[e as int] is Some);
            assert(has_uid(t, pc_state.uid));
            lemma_clear_uid(t, e);
            if dest != from {
                assert(!has_uid(old_areas[dest as int].entities@, pc_state.uid));
            }
        }
        let mut dst = self.areas.remove(dest);
        assert(dst.entities@.len() == old_areas[dest as int].entities@.len());
        let (index, more) = dst.add_entity(pc_state, p);
        self.areas.insert(dest, dst);
        let ghost remove_part = actions@;
        let mut k: usize = 0;
        while k < more.len()
            invariant
                k <= more@.len(),
                actions@ == remove_part + more@.subrange(0, k as int),
            decreases more.len() - k,
        {
            actions.push(more[k]);
            k = k + 1;
            assert(actions@ =~= remove_part + more@.subrange(0, k as int));
        }
        assert(more@.subrange(0, more@.len() as int) =~= more@);

        self.current = dest;
        self.pc_slot = index;
        self.pc_area = dest;
        proof {
            let fin = self.areas@;
            assert forall|i: int| 0 <= i < fin.len() implies area_state_wf(#[trigger] fin[i]) by {
                if i != dest {
                    assert(fin[i] == mid[i]);
                }
            }
            assert(live(fin[dest as int].entities@, index));
            assert(fin[dest as int].entities@[index as int] == Some(EntityState { index, location: p, ..pc_state }));
            assert(forall|i: int| 0 <= i < fin.len() && i != dest ==> fin[i] == mid[i]);
            assert forall|i: int, j: int|
                0 <= i < fin.len() && 0 <= j < fin.len() && i != j implies (#[trigger] fin[i]).area.id@
                != (#[trigger] fin[j]).area.id@ by {
                assert(fin[i].area == old_areas[i].area && fin[j].area == old_areas[j].area);
                assert(old_areas[i].area.id@ != old_areas[j].area.id@);
            }
            lemma_move_uids(old_areas, fin, from as int, dest as int, e, EntityState { index, location: p, ..pc_state });
            lemma_only_slot(fin, dest as int, index);
        }
        (true, actions)
    }

    /// One step of the game loop. The queued animations join the playing ones; of these,
    /// those whose flag in `keep` is clear stop. `area_active` is the identity of the entity
    /// the current area says is active, if any; the player character otherwise. When the
    /// player character is dead (`pc_dead`), turn mode ends. When the game is entering combat,
    /// every animation is checked against the active entity and the flag is cleared. Returns
    /// the active entity and what the turn order asks.
    pub fn update(&mut self, keep: &Vec<bool>, area_active: Option<usize>, pc_dead: bool) -> (r: (
        usize,
        Vec<TurnAction>,
    ))
        requires
            old(self).well_formed(),
            keep@.len() == old(self).playing().len() + old(self).pending().len(),
        ensures
            updated(*old(self), *final(self), keep@, area_active, pc_dead, (r.0, r.1@)),
            call_keeps(*old(self), *final(self), GameCall::Update),
    {
        let ghost merged = self.animations@ + self.anims_to_add@;
        let mut rest: Vec<Animation> = Vec::new();
        std::mem::swap(&mut rest, &mut self.animations);
        let mut pending: Vec<Animation> = Vec::new();
        std::mem::swap(&mut pending, &mut self.anims_to_add);
        rest.append(&mut pending);
        assert(rest@ == merged);
        let mut kept: Vec<Animation> = Vec::new();
        let mut i: usize = 0;
        while i < keep.len()
            invariant
                i <= merged.len(),
                keep@.len() == merged.len(),
                rest@ == merged.subrange(i as int, merged.len() as int),
                kept@ == kept_animations(merged.subrange(0, i as int), keep@),
            decreases merged.len() - i,
        {
            let a = rest.remove(0);
            assert(a == merged[i as int]);
            let ghost pre = merged.subrange(0, i + 1);
            assert(pre.drop_last() =~= merged.subrange(0, i as int));
            if keep[i] {
                kept.push(a);
            }
            i = i + 1;
            assert(rest@ =~= merged.subrange(i as int, merged.len() as int));
        }
        assert(merged.subrange(0, merged.len() as int) =~= merged);

        let active = match area_active {
            Some(a) => a,
            None => self.pc,
        };
        let mut actions: Vec<TurnAction> = Vec::new();
        if pc_dead {
            let cur = self.current;
            let mut a = self.areas.remove(cur);
            actions = a.turn_timer.set_active(false, &a.entities);
            self.areas.insert(cur, a);
            proof {
                let fin = self.areas@;
                assert(forall|j: int| 0 <= j < fin.len() && j != cur ==> fin[j] == old(self).areas@[j]);
                assert(forall|j: int| 0 <= j < fin.len() ==> area_state_wf(#[trigger] fin[j]));
            }
        }
        let entering = self.entering_combat;
        self.entering_combat = false;
        if entering {
            let ghost before = kept@;
            let mut out: Vec<Animation> = Vec::new();
            let mut j: usize = 0;
            let n = kept.len();
            while j < n
                invariant
                    n == before.len(),
                    j <= before.len(),
                    kept@ == before.subrange(j as int, before.len() as int),
                    out@ == checked_against(before.subrange(0, j as int), active),
                decreases before.len() - j,
            {
                let mut a = kept.remove(0);
                a.check(active);
                out.push(a);
                j = j + 1;
                assert(kept@ =~= before.subrange(j as int, before.len() as int));
                assert(out@ =~= checked_against(before.subrange(0, j as int), active));
            }
            assert(before.subrange(0, before.len() as int) =~= before);
            self.animations = out;
        } else {
            self.animations = kept;
        }
        proof {
            assert(self.areas@[self.pc_area as int].entities == old(self).areas@[self.pc_area as int].entities);
        }
        (active, actions)
    }

    /// Whether `entity` has enough action points to move and a path was found for it.
    pub fn can_move_towards_point(&self, entity: &EntityState, movement_ap: u32, path_found: bool) -> (r: bool)
        ensures
            r == can_move(*entity, movement_ap, path_found),
    {
        if entity.ap < movement_ap {
            return false;
        }
        path_found
    }

    /// Whether `entity` can move towards another entity: see `can_move_towards_point`.
    pub fn can_move_towards(&self, entity: &EntityState, movement_ap: u32, path_found: bool) -> (r: bool)
        ensures
            r == can_move(*entity, movement_ap, path_found),
    {
        self.can_move_towards_point(entity, movement_ap, path_found)
    }

    /// Whether `entity` can move to a point: see `can_move_towards_point`.
    pub fn can_move_to(&self, entity: &EntityState, movement_ap: u32, path_found: bool) -> (r: bool)
        ensures
            r == can_move(*entity, movement_ap, path_found),
    {
        self.can_move_towards_point(entity, movement_ap, path_found)
    }

    /// Starts moving the entity with identity `entity` along `path`, the path found for it,
    /// if any: each playing animation is checked against the entity, then a move of the
    /// entity along the path starts playing, each step taking `base_time_millis`, with the
    /// script callback `callback` to run at its end. Returns whether it moves.
    pub fn move_towards_point(
        &mut self,
        entity: usize,
        path: Option<Vec<Point>>,
        base_time_millis: u32,
        callback: Option<usize>,
    ) -> (r: bool)
        ensures
            moved(*old(self), *final(self), entity, path, base_time_millis, callback, r),
            call_keeps(*old(self), *final(self), GameCall::Move),
    {
        let path = match path {
            None => {
                return false;
            },
            Some(p) => p,
        };
        let ghost before = self.animations@;
        let mut rest: Vec<Animation> = Vec::new();
        std::mem::swap(&mut rest, &mut self.animations);
        let mut out: Vec<Animation> = Vec::new();
        let mut j: usize = 0;
        let n = rest.len();
        while j < n
            invariant
                n == before.len(),
                j <= before.len(),
                rest@ == before.subrange(j as int, before.len() as int),
                out@ == checked_against(before.subrange(0, j as int), entity),
            decreases before.len() - j,
        {
            let mut a = rest.remove(0);
            a.check(entity);
            out.push(a);
            j = j + 1;
            assert(rest@ =~= before.subrange(j as int, before.len() as int));
            assert(out@ =~= checked_against(before.subrange(0, j as int), entity));
        }
        assert(before.subrange(0, before.len() as int) =~= before);
        out.push(Animation::new_move(entity, path, base_time_millis, callback));
        self.animations = out;
        true
    }

    /// Starts moving `entity` towards another entity: see `move_towards_point`.
    pub fn move_towards(
        &mut self,
        entity: usize,
        path: Option<Vec<Point>>,
        base_time_millis: u32,
        callback: Option<usize>,
    ) -> (r: bool)
        ensures
            moved(*old(self), *final(self), entity, path, base_time_millis, callback, r),
            call_keeps(*old(self), *final(self), GameCall::Move),
    {
        self.move_towards_point(entity, path, base_time_millis, callback)
    }

    /// Starts moving `entity` to a point: see `move_towards_point`.
    pub fn move_to(
        &mut self,
        entity: usize,
        path: Option<Vec<Point>>,
        base_time_millis: u32,
        callback: Option<usize>,
    ) -> (r: bool)
        ensures
            moved(*old(self), *final(self), entity, path, base_time_millis, callback, r),
            call_keeps(*old(self), *final(self), GameCall::Move),
    {
        self.move_towards_point(entity, path, base_time_millis, callback)
    }
}

impl Animation {
    /// An entity state that no slot of a well formed game lacks.
    fn unreachable_state() -> (s: EntityState) {
        EntityState {
            uid: 0,
            index: 0,
            size: 0,
            is_pc: false,
            ai_active: false,
            initiative: 0,
            ap: 0,
            location: Point { x: 0, y: 0 },
        }
    }
}

/// How starting a move changes `old` into `new`, with the result `r`.
pub open spec fn moved(
    old: GameState,
    new: GameState,
    entity: usize,
    path: Option<Vec<Point>>,
    base_time_millis: u32,
    callback: Option<usize>,
    r: bool,
) -> bool {
    &&& r == path is Some
    &&& path is None ==> new == old
    &&& path matches Some(p) ==> new.playing() == checked_against(old.playing(), entity).push(
        Animation { owner: entity, marked_for_removal: false, path: p, base_time_millis, callback },
    )
    &&& new.pending() == old.pending()
    &&& same_but_animations(old, new)
}

/// Moving the entity in the slot `e` of the area at `from` to a new slot at the end of the
/// area at `dest`, as `m`, keeps the identities of the loaded areas unique.
proof fn lemma_move_uids(o: Seq<AreaState>, n: Seq<AreaState>, from: int, dest: int, e: usize, m: EntityState)
    requires
        0 <= from < o.len(),
        0 <= dest < o.len(),
        n.len() == o.len(),
        forall|i: int| 0 <= i < o.len() ==> area_state_wf(#[trigger] o[i]),
        uids_unique(o),
        live(o[from].entities@, e),
        m.uid == state_at(o[from].entities@, e).uid,
        forall|a: int| 0 <= a < n.len() && a != from && a != dest ==> #[trigger] n[a] == o[a],
        dest != from ==> n[from].entities@ == o[from].entities@.update(e as int, None)
            && n[dest].entities@ == o[dest].entities@.push(Some(m)),
        dest == from ==> n[dest].entities@ == o[from].entities@.update(e as int, None).push(Some(m)),
    ensures
        uids_unique(n),
{
    let u0 = m.uid;
    let t = o[from].entities@;
    assert(t[e as int] is Some);
    assert(has_uid(t, u0));
    assert(area_state_wf(o[from]));
    lemma_clear_uid(t, e);
    let t1 = t.update(e as int, None);
    if dest != from {
        assert(!has_uid(o[dest].entities@, u0));
        assert(area_state_wf(o[dest]));
        lemma_push_uid(o[dest].entities@, m);
    } else {
        lemma_push_uid(t1, m);
    }
    assert forall|a: int, w: usize| 0 <= a < n.len() && #[trigger] has_uid(n[a].entities@, w) implies (w
        == u0 && a == dest) || (w != u0 && has_uid(o[a].entities@, w)) by {
        if a != from && a != dest {
            assert(n[a] == o[a]);
            if w == u0 {
                assert(has_uid(o[from].entities@, u0));
            }
        }
    }
    assert forall|a: int, b: int, w: usize|
        0 <= a < n.len() && 0 <= b < n.len() && a != b && has_uid(n[a].entities@, w) implies !has_uid(
        n[b].entities@,
        w,
    ) by {
        if has_uid(n[b].entities@, w) {
            if w != u0 {
                assert(has_uid(o[a].entities@, w) && has_uid(o[b].entities@, w));
            }
        }
    }
}

/// The entity in the slot `e` of the area at `a` is the only one of the loaded areas with
/// its identity.
pub proof fn lemma_only_slot(areas: Seq<AreaState>, a: int, e: usize)
    requires
        0 <= a < areas.len(),
        forall|i: int| 0 <= i < areas.len() ==> area_state_wf(#[trigger] areas[i]),
        uids_unique(areas),
        live(areas[a].entities@, e),
    ensures
        only_slot(areas, state_at(areas[a].entities@, e).uid, a, e),
{
    let u = state_at(areas[a].entities@, e).uid;
    assert forall|b: int, j: int|
        0 <= b < areas.len() && 0 <= j < areas[b].entities@.len() && (#[trigger] areas[b].entities@[j]) is Some
            && areas[b].entities@[j].unwrap().uid == u implies b == a && j == e by {
        assert(areas[a].entities@[e as int] is Some);
        assert(has_uid(areas[a].entities@, u));
        assert(has_uid(areas[b].entities@, u));
        if b == a {
            assert(area_state_wf(areas[a]));
            lemma_uid_slot(areas[a].entities@, e, j);
        }
    }
}

/// Starting a move of `entity` marks for removal only that entity's own playing animations:
/// every animation of another entity goes on unchanged, its flag included, and the move, not
/// marked, comes after them all, along the path given. Without a path nothing changes and the
/// call gives false. Here `old` and `new` are the game before and after `move_towards_point`,
/// and `r` what it gives.
pub proof fn law_move_checks_only_own_animations(
    old: GameState,
    new: GameState,
    entity: usize,
    path: Option<Vec<Point>>,
    base_time_millis: u32,
    callback: Option<usize>,
    r: bool,
)
    requires
        moved(old, new, entity, path, base_time_millis, callback, r),
    ensures
        path is None ==> !r && new == old,
        path matches Some(p) ==> {
            &&& r
            &&& new.playing().len() == old.playing().len() + 1
            &&& forall|i: int|
                0 <= i < old.playing().len() && old.playing()[i].owner != entity ==> #[trigger] new.playing()[i]
                    == old.playing()[i]
            &&& forall|i: int|
                0 <= i < old.playing().len() && old.playing()[i].owner == entity ==> #[trigger] new.playing()[i]
                    == (Animation { marked_for_removal: true, ..old.playing()[i] })
            &&& new.playing()[old.playing().len() as int] == (Animation {
                owner: entity,
                marked_for_removal: false,
                path: p,
                base_time_millis,
                callback,
            })
            &&& new.pending() == old.pending()
            &&& new.areas() == old.areas()
        },
{
    if let Some(p) = path {
        let c = checked_against(old.playing(), entity);
        assert forall|i: int| 0 <= i < old.playing().len() implies #[trigger] new.playing()[i] == c[i] by {}
    }
}

/// The first area with the id `id` is the one at `i` when no earlier one has it.
pub proof fn lemma_first_area_with_id(areas: Seq<AreaState>, id: Seq<char>, i: int)
    requires
        0 <= i < areas.len(),
        areas[i].area.id@ == id,
        forall|j: int| 0 <= j < i ==> (#[trigger] areas[j]).area.id@ != id,
    ensures
        first_area_with_id(areas, id) == Some(i),
    decreases areas.len(),
{
    let d = areas.drop_last();
    if i < areas.len() - 1 {
        assert forall|j: int| 0 <= j < i implies (#[trigger] d[j]).area.id@ != id by {
            assert(d[j] == areas[j]);
        }
        assert(d[i] == areas[i]);
        lemma_first_area_with_id(d, id, i);
    } else {
        lemma_no_area_with_id(d, id);
    }
}

/// No area has the id `id` exactly when there is no first one.
pub proof fn lemma_no_area_with_id(areas: Seq<AreaState>, id: Seq<char>)
    requires
        forall|j: int| 0 <= j < areas.len() ==> (#[trigger] areas[j]).area.id@ != id,
    ensures
        first_area_with_id(areas, id) is None,
    decreases areas.len(),
{
    if areas.len() > 0 {
        let d = areas.drop_last();
        assert forall|j: int| 0 <= j < d.len() implies (#[trigger] d[j]).area.id@ != id by {
            assert(d[j] == areas[j]);
        }
        lemma_no_area_with_id(d, id);
        assert(areas[areas.len() - 1] == areas.last());
    }
}

/// Looking an area up by its id depends only on the ids of the loaded areas, in order: a
/// transition, which changes no area's description, finds the same area again for each id.
pub proof fn law_area_lookup_by_ids(a: Seq<AreaState>, b: Seq<AreaState>, id: Seq<char>)
    requires
        a.len() == b.len(),
        forall|i: int| 0 <= i < a.len() ==> (#[trigger] a[i]).area.id == b[i].area.id,
    ensures
        first_area_with_id(a, id) == first_area_with_id(b, id),
    decreases a.len(),
{
    if a.len() > 0 {
        let da = a.drop_last();
        let db = b.drop_last();
        assert forall|i: int| 0 <= i < da.len() implies (#[trigger] da[i]).area.id == db[i].area.id by {
            assert(da[i] == a[i] && db[i] == b[i]);
        }
        law_area_lookup_by_ids(da, db, id);
        assert(a.last() == a[a.len() - 1] && b.last() == b[b.len() - 1]);
    }
}

/// An area that is loaded under an id is found again under that id: once the area `s` with
/// the id `id` is added to areas that hold none with that id, the first area with that id is
/// the one added, so looking the id up again reuses it.
pub proof fn law_loaded_area_is_reused(areas: Seq<AreaState>, s: AreaState, id: Seq<char>)
    requires
        !area_loaded(areas, id),
        s.area.id@ == id,
    ensures
        area_loaded(areas.push(s), id),
        first_area_with_id(areas.push(s), id) == Some(areas.len() as int),
{
    let n = areas.push(s);
    assert(n[areas.len() as int] == s);
    assert forall|j: int| 0 <= j < areas.len() implies (#[trigger] n[j]).area.id@ != id by {
        assert(n[j] == areas[j]);
    }
    lemma_first_area_with_id(n, id, areas.len() as int);
}

/// An animation queued with `add_animation` runs at the next update: after every animation
/// that was already playing or queued, and it goes on playing exactly when its flag in `keep`
/// is set.
pub proof fn law_queued_animation_updated_next(
    playing: Seq<Animation>,
    pending: Seq<Animation>,
    a: Animation,
    keep: Seq<bool>,
)
    requires
        keep.len() == playing.len() + pending.len() + 1,
    ensures
        kept_animations(playing + pending.push(a), keep) == if keep[keep.len() - 1] {
            kept_animations(playing + pending, keep).push(a)
        } else {
            kept_animations(playing + pending, keep)
        },
{
    let m = playing + pending.push(a);
    assert(m.drop_last() =~= playing + pending);
    assert(m.last() == a);
}

/// When an entity can move towards a point, starting the move with the same path succeeds.
pub proof fn law_can_move_then_move(
    g: GameState,
    after: GameState,
    e: EntityState,
    movement_ap: u32,
    path: Option<Vec<Point>>,
    base_time_millis: u32,
    callback: Option<usize>,
    r: bool,
)
    requires
        can_move(e, movement_ap, path is Some),
        moved(g, after, e.uid, path, base_time_millis, callback, r),
    ensures
        r,
{
}

/// The player character keeps its identity: along any run of calls on a game, each state has
/// the player character of the first.
pub proof fn law_pc_identity_kept(states: Seq<GameState>, calls: Seq<GameCall>)
    requires
        states.len() == calls.len() + 1,
        forall|i: int| 0 <= i < calls.len() ==> call_keeps(states[i], states[i + 1], #[trigger] calls[i]),
    ensures
        forall|i: int| 0 <= i < states.len() ==> (#[trigger] states[i]).pc_id() == states[0].pc_id(),
    decreases calls.len(),
{
    if calls.len() > 0 {
        let n = calls.len() - 1;
        let s0 = states.drop_last();
        let c0 = calls.drop_last();
        assert forall|i: int| 0 <= i < c0.len() implies call_keeps(s0[i], s0[i + 1], #[trigger] c0[i]) by {
            assert(c0[i] == calls[i] && s0[i] == states[i] && s0[i + 1] == states[i + 1]);
        }
        law_pc_identity_kept(s0, c0);
        assert(call_keeps(states[n], states[n + 1], calls[n]));
        assert forall|i: int| 0 <= i < states.len() implies (#[trigger] states[i]).pc_id() == states[0].pc_id() by {
            if i < states.len() - 1 {
                assert(s0[i] == states[i]);
            } else {
                assert(s0[n] == states[n]);
            }
        }
    }
}

/// Only `set_exit` sets the exit flag: along any run of calls on a game, a state is to exit
/// only when the first one was, or a `SetExit` call came before it.
pub proof fn law_exit_only_by_set_exit(states: Seq<GameState>, calls: Seq<GameCall>)
    requires
        states.len() == calls.len() + 1,
        forall|i: int| 0 <= i < calls.len() ==> call_keeps(states[i], states[i + 1], #[trigger] calls[i]),
    ensures
        forall|i: int|
            0 <= i < states.len() && (#[trigger] states[i]).exiting() ==> states[0].exiting() || exists|j: int|
                0 <= j < i && (#[trigger] calls[j]) is SetExit,
    decreases calls.len(),
{
    if calls.len() > 0 {
        let n = calls.len() - 1;
        let s0 = states.drop_last();
        let c0 = calls.drop_last();
        assert forall|i: int| 0 <= i < c0.len() implies call_keeps(s0[i], s0[i + 1], #[trigger] c0[i]) by {
            assert(c0[i] == calls[i] && s0[i] == states[i] && s0[i + 1] == states[i + 1]);
        }
        law_exit_only_by_set_exit(s0, c0);
        assert(call_keeps(states[n], states[n + 1], calls[n]));
        assert forall|i: int|
            0 <= i < states.len() && (#[trigger] states[i]).exiting() implies states[0].exiting() || exists|j: int|
                0 <= j < i && (#[trigger] calls[j]) is SetExit by {
            if i < states.len() - 1 {
                assert(s0[i] == states[i]);
                assert(s0[0] == states[0]);
                if !states[0].exiting() {
                    let j = choose|j: int| 0 <= j < i && (#[trigger] c0[j]) is SetExit;
                    assert(c0[j] == calls[j]);
                }
            } else if !(calls[n] is SetExit) {
                assert(s0[n] == states[n]);
                assert(s0[0] == states[0]);
                if !states[0].exiting() {
                    let j = choose|j: int| 0 <= j < n && (#[trigger] c0[j]) is SetExit;
                    assert(c0[j] == calls[j]);
                }
            }
        }
    }
}

/// Drives the game from the main loop.
pub struct GameStateMainLoopUpdater {}

impl GameStateMainLoopUpdater {
    /// One step of the game loop: see `GameState::update`.
    pub fn update(&self, state: &mut GameState, keep: &Vec<bool>, area_active: Option<usize>, pc_dead: bool) -> (r: (
        usize,
        Vec<TurnAction>,
    ))
        requires
            old(state).well_formed(),
            keep@.len() == old(state).playing().len() + old(state).pending().len(),
        ensures
            updated(*old(state), *final(state), keep@, area_active, pc_dead, (r.0, r.1@)),
            call_keeps(*old(state), *final(state), GameCall::Update),
    {
        state.update(keep, area_active, pc_dead)
    }

    /// Whether the game is to exit.
    pub fn is_exit(&self, state: &GameState) -> (r: bool)
        ensures
            r == state.exiting(),
    {
        state.is_exit()
    }
}

} // verus!
