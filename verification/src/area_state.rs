use vstd::prelude::*;

use crate::area::{can_stand, Area};
use crate::entity::{
    all_live, has_uid, lemma_push_uid, live, table_wf, uids_distinct, EntityState, TurnAction,
};
use crate::geometry::Point;
use crate::turn_timer::{
    lemma_without_members, no_ai_active, set_active_actions, without, TurnTimer,
};

verus! {

/// An area that the game has loaded, with the entities in it and their turn order.
pub struct AreaState {
    pub area: Area,
    /// The entities of the area by index; an entity that left the area leaves an empty slot.
    pub entities: Vec<Option<EntityState>>,
    pub turn_timer: TurnTimer,
}

/// Every entity sits at the slot of its index, no two entities share an identity, and the
/// turn order names only entities of the area.
pub open spec fn area_state_wf(a: AreaState) -> bool {
    &&& table_wf(a.entities@)
    &&& uids_distinct(a.entities@)
    &&& all_live(a.turn_timer.order(), a.entities@)
}

/// The state of `s` once it is placed in an area under the slot `index`, at `location`.
pub open spec fn placed(s: EntityState, index: usize, location: Point, is_pc: bool) -> EntityState {
    EntityState { index, location, is_pc, ..s }
}

/// The entity table, turn order and turn-order calls after each of the first `k` actors of
/// `area` whose description `found` holds, and who can stand where the area puts it, is
/// placed there in turn, starting from the table `t` and the order `q`.
pub open spec fn populate_spec(
    area: Area,
    found: Seq<Option<EntityState>>,
    t: Seq<Option<EntityState>>,
    q: Seq<usize>,
    k: int,
) -> (Seq<Option<EntityState>>, Seq<usize>, Seq<TurnAction>)
    decreases k,
{
    if k <= 0 {
        (t, q, Seq::empty())
    } else {
        let prev = populate_spec(area, found, t, q, k - 1);
        let location = area.actors@[k - 1].location;
        match found[k - 1] {
            Some(s) => if can_stand(area, s.size, location) {
                let index = prev.0.len() as usize;
                (
                    prev.0.push(Some(placed(s, index, location, false))),
                    prev.1.push(index),
                    prev.2 + add_actions(prev.1, index),
                )
            } else {
                prev
            },
            None => prev,
        }
    }
}

/// Whether the descriptions `found` carry identities that differ from each other and from
/// those of the entities `t`.
pub open spec fn fresh_in(found: Seq<Option<EntityState>>, t: Seq<Option<EntityState>>) -> bool {
    &&& uids_distinct(found)
    &&& forall|k: int| 0 <= k < found.len() && (#[trigger] found[k]) is Some ==> !has_uid(t, found[k].unwrap().uid)
}

/// What the turn order asks when an entity joins the order `q` under the index `e`.
pub open spec fn add_actions(q: Seq<usize>, e: usize) -> Seq<TurnAction> {
    if q.len() == 0 {
        seq![TurnAction::InitTurn(e), TurnAction::Notify]
    } else {
        seq![TurnAction::Notify]
    }
}

impl AreaState {
    /// A loaded area with no entities in it, outside turn mode.
    pub fn new(area: Area) -> (a: AreaState)
        ensures
            a.area == area,
            a.entities@ == Seq::<Option<EntityState>>::empty(),
            a.turn_timer.order() == Seq::<usize>::empty(),
            !a.turn_timer.turn_mode(),
            area_state_wf(a),
    {
        AreaState { area, entities: Vec::new(), turn_timer: TurnTimer::default() }
    }

    /// Places the entity `state` at `location`, under the next free index, and puts it at the
    /// back of the turn order. Returns the index and what the turn order asks.
    pub fn add_entity(&mut self, state: EntityState, location: Point) -> (r: (usize, Vec<TurnAction>))
        requires
            area_state_wf(*old(self)),
            old(self).entities@.len() < usize::MAX,
            !has_uid(old(self).entities@, state.uid),
        ensures
            area_state_wf(*final(self)),
            r.0 == old(self).entities@.len(),
            final(self).area == old(self).area,
            final(self).entities@ == old(self).entities@.push(
                Some(EntityState { index: r.0, location, ..state }),
            ),
            final(self).turn_timer.order() == old(self).turn_timer.order().push(r.0),
            final(self).turn_timer.turn_mode() == old(self).turn_timer.turn_mode(),
            r.1@ == if old(self).turn_timer.order().len() == 0 {
                seq![TurnAction::InitTurn(r.0), TurnAction::Notify]
            } else {
                seq![TurnAction::Notify]
            },
    {
        let index = self.entities.len();
        proof {
            lemma_push_uid(self.entities@, EntityState { index, location, ..state });
        }
        self.entities.push(Some(EntityState { index, location, ..state }));
        let actions = self.turn_timer.add(index);
        proof {
            let t = self.entities@;
            let q = self.turn_timer.order();
            assert forall|i: int| 0 <= i < q.len() implies live(t, #[trigger] q[i]) by {
                if i < q.len() - 1 {
                    assert(q[i] == old(self).turn_timer.order()[i]);
                    assert(live(old(self).entities@, q[i]));
                }
            }
        }
        (index, actions)
    }

    /// Takes the entity `index` out of the turn order and out of the area.
    pub fn remove_entity(&mut self, index: usize) -> (actions: Vec<TurnAction>)
        requires
            area_state_wf(*old(self)),
            live(old(self).entities@, index),
        ensures
            area_state_wf(*final(self)),
            final(self).area == old(self).area,
            final(self).entities@ == old(self).entities@.update(index as int, None),
            final(self).turn_timer.order() == without(old(self).turn_timer.order(), index),
            no_ai_active(final(self).turn_timer.order(), old(self).entities@) ==> final(self).turn_timer.turn_mode()
                == false && actions@ == set_active_actions(
                final(self).turn_timer.order(),
                old(self).entities@,
                old(self).turn_timer.turn_mode(),
                false,
            ),
            !no_ai_active(final(self).turn_timer.order(), old(self).entities@)
                ==> final(self).turn_timer.turn_mode() == old(self).turn_timer.turn_mode() && actions@ == seq![
                TurnAction::Notify,
            ],
    {
        let actions = self.turn_timer.remove(index, &self.entities);
        proof {
            crate::entity::lemma_clear_uid(self.entities@, index);
        }
        self.entities.set(index, None);
        proof {
            lemma_without_members(old(self).turn_timer.order(), index);
            let q = self.turn_timer.order();
            let q0 = old(self).turn_timer.order();
            assert forall|i: int| 0 <= i < q.len() implies live(self.entities@, #[trigger] q[i]) by {
                let j = choose|j: int| 0 <= j < q0.len() && q0[j] == q[i];
                assert(live(old(self).entities@, q0[j]));
            }
        }
        actions
    }

    /// Places the entity `state` at `location` when it can stand there, as the player
    /// character or not; returns whether it was placed and what the turn order asks.
    pub fn add_actor(&mut self, state: EntityState, location: Point, is_pc: bool) -> (r: (bool, Vec<TurnAction>))
        requires
            area_state_wf(*old(self)),
            old(self).entities@.len() < usize::MAX,
            !has_uid(old(self).entities@, state.uid),
        ensures
            area_state_wf(*final(self)),
            final(self).area == old(self).area,
            final(self).turn_timer.turn_mode() == old(self).turn_timer.turn_mode(),
            r.0 == can_stand(old(self).area, state.size, location),
            !r.0 ==> final(self).entities@ == old(self).entities@ && final(self).turn_timer.order()
                == old(self).turn_timer.order() && r.1@ == Seq::<TurnAction>::empty(),
            r.0 ==> {
                let index = old(self).entities@.len() as usize;
                &&& final(self).entities@ == old(self).entities@.push(Some(placed(state, index, location, is_pc)))
                &&& final(self).turn_timer.order() == old(self).turn_timer.order().push(index)
                &&& r.1@ == add_actions(old(self).turn_timer.order(), index)
            },
    {
        if !self.area.is_passable(state.size, location) {
            return (false, Vec::new());
        }
        let (_index, actions) = self.add_entity(EntityState { is_pc, ..state }, location);
        (true, actions)
    }

    /// Places each actor of the area, whose description `found` holds at the same position
    /// (none where the module knows no such actor), where the area puts it; an actor that
    /// cannot stand there, or that has no description, is left out. Returns what the turn
    /// order asks.
    pub fn populate(&mut self, found: &Vec<Option<EntityState>>) -> (actions: Vec<TurnAction>)
        requires
            area_state_wf(*old(self)),
            found@.len() == old(self).area.actors@.len(),
            old(self).entities@.len() + found@.len() < usize::MAX,
            fresh_in(found@, old(self).entities@),
        ensures
            area_state_wf(*final(self)),
            forall|u: usize|
                #[trigger] has_uid(final(self).entities@, u) ==> has_uid(old(self).entities@, u) || has_uid(
                    found@,
                    u,
                ),
            final(self).area == old(self).area,
            final(self).turn_timer.turn_mode() == old(self).turn_timer.turn_mode(),
            ({
                let p = populate_spec(
                    old(self).area,
                    found@,
                    old(self).entities@,
                    old(self).turn_timer.order(),
                    found@.len() as int,
                );
                &&& final(self).entities@ == p.0
                &&& final(self).turn_timer.order() == p.1
                &&& actions@ == p.2
            }),
    {
        let ghost a0 = *self;
        let mut actions: Vec<TurnAction> = Vec::new();
        let mut i: usize = 0;
        while i < found.len()
            invariant
                i <= found@.len(),
                found@.len() == a0.area.actors@.len(),
                a0.entities@.len() + found@.len() < usize::MAX,
                area_state_wf(*self),
                self.area == a0.area,
                self.turn_timer.turn_mode() == a0.turn_timer.turn_mode(),
                self.entities@.len() <= a0.entities@.len() + i,
                fresh_in(found@, a0.entities@),
                forall|k: int|
                    i <= k < found@.len() && (#[trigger] found@[k]) is Some ==> !has_uid(
                        self.entities@,
                        found@[k].unwrap().uid,
                    ),
                forall|u: usize|
                    #[trigger] has_uid(self.entities@, u) ==> has_uid(a0.entities@, u) || has_uid(found@, u),
                ({
                    let p = populate_spec(a0.area, found@, a0.entities@, a0.turn_timer.order(), i as int);
                    &&& self.entities@ == p.0
                    &&& self.turn_timer.order() == p.1
                    &&& actions@ == p.2
                }),
            decreases found@.len() - i,
        {
            let location = self.area.actors[i].location;
            match &found[i] {
                Some(s) => {
                    let ghost t0 = self.entities@;
                    let ghost ui = s.uid;
                    assert(found@[i as int] is Some);
                    let (ok, more) = self.add_actor(*s, location, false);
                    proof {
                        if ok {
                            let st = placed(*s, t0.len() as usize, location, false);
                            lemma_push_uid(t0, st);
                            assert(self.entities@ == t0.push(Some(st)));
                            assert forall|k: int|
                                i + 1 <= k < found@.len() && (#[trigger] found@[k]) is Some implies !has_uid(
                                self.entities@,
                                found@[k].unwrap().uid,
                            ) by {
                                assert(found@[k].unwrap().uid != ui);
                            }
                            assert forall|u: usize| #[trigger] has_uid(self.entities@, u) implies has_uid(
                                a0.entities@,
                                u,
                            ) || has_uid(found@, u) by {
                                if u == ui {
                                    assert(found@[i as int].unwrap().uid == u);
                                }
                            }
                        }
                    }
                    let ghost before = actions@;
                    let mut k: usize = 0;
                    while k < more.len()
                        invariant
                            k <= more@.len(),
                            actions@ == before + more@.subrange(0, k as int),
                        decreases more.len() - k,
                    {
                        actions.push(more[k]);
                        k = k + 1;
                        assert(actions@ =~= before + more@.subrange(0, k as int));
                    }
                    assert(more@.subrange(0, more@.len() as int) =~= more@);
                    proof {
                        if !ok {
                            assert(actions@ =~= before);
                        }
                    }
                },
                None => {},
            }
            i = i + 1;
        }
        actions
    }
}

} // verus!
