use vstd::prelude::*;

use crate::geometry::Point;

verus! {

/// What the turn order and the game state read of an entity in an area.
#[derive(Copy, Clone, Debug)]
pub struct EntityState {
    /// The entity's identity; it stays the same when the entity moves between areas, and
    /// two states are the same entity when their identities are equal.
    pub uid: usize,
    /// The entity's slot in its area's list of entities.
    pub index: usize,
    /// The entity's footprint: it covers a square of this side.
    pub size: i32,
    /// Whether the entity is the player character.
    pub is_pc: bool,
    /// Whether the entity's AI takes part in combat.
    pub ai_active: bool,
    /// The entity's initiative; higher initiative moves earlier.
    pub initiative: i32,
    /// The action points the entity has left this turn.
    pub ap: u32,
    /// Where the entity stands in its area.
    pub location: Point,
}

/// A call that the turn order makes on an entity's actor, or on its listeners.
#[derive(Copy, Clone, Debug, PartialEq, Eq, Structural)]
pub enum TurnAction {
    /// Start the turn of the entity with this index.
    InitTurn(usize),
    /// End the turn of the entity with this index.
    EndTurn(usize),
    /// Tell the listeners of the turn order that it changed.
    Notify,
}

impl EntityState {
    pub fn is_pc(&self) -> (r: bool)
        ensures
            r == self.is_pc,
    {
        self.is_pc
    }

    pub fn is_ai_active(&self) -> (r: bool)
        ensures
            r == self.ai_active,
    {
        self.ai_active
    }

    pub fn set_ai_active(&mut self)
        ensures
            *final(self) == (EntityState { ai_active: true, ..*old(self) }),
    {
        self.ai_active = true;
    }

    /// Whether `self` and `other` are the same entity.
    pub fn same_entity(&self, other: &EntityState) -> (r: bool)
        ensures
            r == (self.uid == other.uid),
    {
        self.uid == other.uid
    }
}

/// Whether `x` names an entity of the table `t`.
pub open spec fn live(t: Seq<Option<EntityState>>, x: usize) -> bool {
    x < t.len() && t[x as int] is Some
}

/// The state of the entity `x` of `t`.
pub open spec fn state_at(t: Seq<Option<EntityState>>, x: usize) -> EntityState {
    t[x as int].unwrap()
}

/// Whether the entity `x` of `t` is the player character.
pub open spec fn pc_at(t: Seq<Option<EntityState>>, x: usize) -> bool {
    live(t, x) && state_at(t, x).is_pc
}

/// Whether the AI of the entity `x` of `t` is active.
pub open spec fn ai_active_at(t: Seq<Option<EntityState>>, x: usize) -> bool {
    live(t, x) && state_at(t, x).ai_active
}

/// Whether the entity `x` of `t` takes turns: it is the player character or its AI is active.
pub open spec fn takes_turns(t: Seq<Option<EntityState>>, x: usize) -> bool {
    pc_at(t, x) || ai_active_at(t, x)
}

/// Whether every entity of `q` names an entity of `t`.
pub open spec fn all_live(q: Seq<usize>, t: Seq<Option<EntityState>>) -> bool {
    forall|i: int| 0 <= i < q.len() ==> live(t, #[trigger] q[i])
}

/// Whether every entity of the table sits at the position of its index.
pub open spec fn table_wf(t: Seq<Option<EntityState>>) -> bool {
    forall|i: int| 0 <= i < t.len() && (#[trigger] t[i]) is Some ==> t[i].unwrap().index == i
}

/// Whether some entity of `t` has the identity `u`.
pub open spec fn has_uid(t: Seq<Option<EntityState>>, u: usize) -> bool {
    exists|i: int| 0 <= i < t.len() && (#[trigger] t[i]) is Some && t[i].unwrap().uid == u
}

/// Whether no two entities of `t` share an identity.
pub open spec fn uids_distinct(t: Seq<Option<EntityState>>) -> bool {
    forall|i: int, j: int|
        0 <= i < t.len() && 0 <= j < t.len() && i != j && (#[trigger] t[i]) is Some && (#[trigger] t[j]) is Some
            ==> t[i].unwrap().uid != t[j].unwrap().uid
}

/// Adding an entity whose identity `t` lacks keeps the identities distinct; the identities of
/// the result are those of `t` and the new one.
pub proof fn lemma_push_uid(t: Seq<Option<EntityState>>, s: EntityState)
    requires
        uids_distinct(t),
        !has_uid(t, s.uid),
    ensures
        uids_distinct(t.push(Some(s))),
        has_uid(t.push(Some(s)), s.uid),
        forall|u: usize| #[trigger] has_uid(t.push(Some(s)), u) == (has_uid(t, u) || u == s.uid),
{
    let n = t.push(Some(s));
    assert(n[t.len() as int] == Some(s));
    assert forall|i: int, j: int|
        0 <= i < n.len() && 0 <= j < n.len() && i != j && (#[trigger] n[i]) is Some && (#[trigger] n[j]) is Some
            implies n[i].unwrap().uid != n[j].unwrap().uid by {
        if i < t.len() && j < t.len() {
            assert(n[i] == t[i] && n[j] == t[j]);
        } else if i < t.len() {
            assert(n[i] == t[i]);
        } else {
            assert(n[j] == t[j]);
        }
    }
    assert forall|u: usize| #[trigger] has_uid(n, u) == (has_uid(t, u) || u == s.uid) by {
        if has_uid(t, u) {
            let i = choose|i: int| 0 <= i < t.len() && (#[trigger] t[i]) is Some && t[i].unwrap().uid == u;
            assert(n[i] == t[i]);
        }
        if has_uid(n, u) && u != s.uid {
            let i = choose|i: int| 0 <= i < n.len() && (#[trigger] n[i]) is Some && n[i].unwrap().uid == u;
            assert(n[i] == t[i]);
        }
    }
}

/// Emptying the slot `e` keeps the identities distinct, drops the identity of its entity, and
/// adds none.
pub proof fn lemma_clear_uid(t: Seq<Option<EntityState>>, e: usize)
    requires
        uids_distinct(t),
        live(t, e),
    ensures
        uids_distinct(t.update(e as int, None)),
        !has_uid(t.update(e as int, None), state_at(t, e).uid),
        forall|u: usize| #[trigger] has_uid(t.update(e as int, None), u) ==> has_uid(t, u),
        forall|u: usize|
            #[trigger] has_uid(t, u) && u != state_at(t, e).uid ==> has_uid(t.update(e as int, None), u),
{
    let n = t.update(e as int, None);
    assert forall|i: int, j: int|
        0 <= i < n.len() && 0 <= j < n.len() && i != j && (#[trigger] n[i]) is Some && (#[trigger] n[j]) is Some
            implies n[i].unwrap().uid != n[j].unwrap().uid by {
        assert(n[i] == t[i] && n[j] == t[j]);
    }
    if has_uid(n, state_at(t, e).uid) {
        let i = choose|i: int| 0 <= i < n.len() && (#[trigger] n[i]) is Some && n[i].unwrap().uid == state_at(t, e).uid;
        assert(n[i] == t[i]);
        assert(t[e as int] is Some);
    }
    assert forall|u: usize| #[trigger] has_uid(n, u) implies has_uid(t, u) by {
        let i = choose|i: int| 0 <= i < n.len() && (#[trigger] n[i]) is Some && n[i].unwrap().uid == u;
        assert(n[i] == t[i]);
    }
    assert forall|u: usize| #[trigger] has_uid(t, u) && u != state_at(t, e).uid implies has_uid(n, u) by {
        let i = choose|i: int| 0 <= i < t.len() && (#[trigger] t[i]) is Some && t[i].unwrap().uid == u;
        assert(n[i] == t[i]);
    }
}

/// The entity at `e` is the only one of `t` with its identity.
pub proof fn lemma_uid_slot(t: Seq<Option<EntityState>>, e: usize, i: int)
    requires
        uids_distinct(t),
        live(t, e),
        0 <= i < t.len(),
        t[i] is Some,
        t[i].unwrap().uid == state_at(t, e).uid,
    ensures
        i == e,
{
    assert(t[e as int] is Some);
}

} // verus!
