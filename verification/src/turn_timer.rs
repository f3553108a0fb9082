use vstd::prelude::*;

use std::collections::VecDeque;

use crate::entity::{
    ai_active_at, all_live, live, pc_at, state_at, takes_turns, EntityState, TurnAction,
};

verus! {

// ---------------------------------------------------------------------------
// The order of initiative
// ---------------------------------------------------------------------------

/// The initiative of the entity `x` of `t`.
pub open spec fn initiative_at(t: Seq<Option<EntityState>>, x: usize) -> int {
    state_at(t, x).initiative as int
}

/// Whether `q` runs from the highest initiative down to the lowest.
pub open spec fn sorted_by_initiative(q: Seq<usize>, t: Seq<Option<EntityState>>) -> bool {
    forall|i: int, j: int|
        0 <= i < j < q.len() ==> initiative_at(t, #[trigger] q[i]) >= initiative_at(t, #[trigger] q[j])
}

/// The entities of `q` whose initiative is `v`, in the order of `q`.
pub open spec fn with_initiative(q: Seq<usize>, t: Seq<Option<EntityState>>, v: int) -> Seq<usize>
    decreases q.len(),
{
    if q.len() == 0 {
        Seq::empty()
    } else {
        let rest = with_initiative(q.drop_last(), t, v);
        if initiative_at(t, q.last()) == v {
            rest.push(q.last())
        } else {
            rest
        }
    }
}

/// The indices of the entities of `t`, in the order of the table.
pub open spec fn live_indices(t: Seq<Option<EntityState>>) -> Seq<usize>
    decreases t.len(),
{
    if t.len() == 0 {
        Seq::empty()
    } else {
        let rest = live_indices(t.drop_last());
        if t.last() is Some {
            rest.push((t.len() - 1) as usize)
        } else {
            rest
        }
    }
}

/// `q` is the stable sort of `input` by falling initiative: it is sorted, and for
/// each initiative the entities that have it come in the order of `input`.
pub open spec fn stable_initiative_order(
    q: Seq<usize>,
    input: Seq<usize>,
    t: Seq<Option<EntityState>>,
) -> bool {
    &&& sorted_by_initiative(q, t)
    &&& forall|v: int| #[trigger] with_initiative(q, t, v) == with_initiative(input, t, v)
}

pub proof fn lemma_with_initiative_append(
    a: Seq<usize>,
    b: Seq<usize>,
    t: Seq<Option<EntityState>>,
    v: int,
)
    ensures
        with_initiative(a + b, t, v) == with_initiative(a, t, v) + with_initiative(b, t, v),
    decreases b.len(),
{
    if b.len() == 0 {
        assert(a + b =~= a);
        assert(with_initiative(b, t, v) =~= Seq::<usize>::empty());
        assert(with_initiative(a, t, v) + Seq::<usize>::empty() =~= with_initiative(a, t, v));
    } else {
        lemma_with_initiative_append(a, b.drop_last(), t, v);
        assert((a + b).drop_last() =~= a + b.drop_last());
        assert((a + b).last() == b.last());
        let wa = with_initiative(a, t, v);
        let wb = with_initiative(b.drop_last(), t, v);
        if initiative_at(t, b.last()) == v {
            assert((wa + wb).push(b.last()) =~= wa + wb.push(b.last()));
        }
    }
}

pub proof fn lemma_with_initiative_none(q: Seq<usize>, t: Seq<Option<EntityState>>, v: int)
    requires
        forall|i: int| 0 <= i < q.len() ==> initiative_at(t, #[trigger] q[i]) != v,
    ensures
        with_initiative(q, t, v) == Seq::<usize>::empty(),
    decreases q.len(),
{
    if q.len() > 0 {
        lemma_with_initiative_none(q.drop_last(), t, v);
    }
}

/// The initiative of the entity `x` of `t`.
fn initiative_of(t: &Vec<Option<EntityState>>, x: usize) -> (r: i32)
    requires
        live(t@, x),
    ensures
        r as int == initiative_at(t@, x),
{
    match &t[x] {
        Some(e) => e.initiative,
        None => 0,
    }
}

/// Puts `x` into `order` after every entity whose initiative is at least that of `x`.
fn insert_by_initiative(order: &mut Vec<usize>, x: usize, t: &Vec<Option<EntityState>>)
    requires
        all_live(old(order)@, t@),
        live(t@, x),
        sorted_by_initiative(old(order)@, t@),
    ensures
        all_live(final(order)@, t@),
        sorted_by_initiative(final(order)@, t@),
        forall|v: int|
            #[trigger] with_initiative(final(order)@, t@, v) == with_initiative(
                old(order)@.push(x),
                t@,
                v,
            ),
{
    let key = initiative_of(t, x);
    let mut p: usize = 0;
    while p < order.len() && initiative_of(t, order[p]) >= key
        invariant
            p <= order.len(),
            order@ == old(order)@,
            all_live(order@, t@),
            key == initiative_at(t@, x),
            forall|j: int| 0 <= j < p ==> initiative_at(t@, #[trigger] order@[j]) >= key,
        decreases order.len() - p,
    {
        p = p + 1;
    }
    let ghost s = order@;
    order.insert(p, x);
    proof {
        lemma_insert_sorted(s, p as int, x, t@);
        assert forall|v: int|
            #[trigger] with_initiative(order@, t@, v) == with_initiative(s.push(x), t@, v) by {
            lemma_insert_with_initiative(s, p as int, x, t@, v);
        }
    }
}

pub proof fn lemma_with_initiative_push(q: Seq<usize>, x: usize, t: Seq<Option<EntityState>>, v: int)
    ensures
        with_initiative(q.push(x), t, v) == if initiative_at(t, x) == v {
            with_initiative(q, t, v).push(x)
        } else {
            with_initiative(q, t, v)
        },
{
    assert(q.push(x).drop_last() =~= q);
}

proof fn lemma_insert_sorted(s: Seq<usize>, p: int, x: usize, t: Seq<Option<EntityState>>)
    requires
        0 <= p <= s.len(),
        sorted_by_initiative(s, t),
        forall|j: int| 0 <= j < p ==> initiative_at(t, #[trigger] s[j]) >= initiative_at(t, x),
        p < s.len() ==> initiative_at(t, s[p]) < initiative_at(t, x),
    ensures
        sorted_by_initiative(s.insert(p, x), t),
{
    let o = s.insert(p, x);
    assert forall|i: int, j: int|
        0 <= i < j < o.len() implies initiative_at(t, #[trigger] o[i]) >= initiative_at(
        t,
        #[trigger] o[j],
    ) by {
        if j < p {
            assert(o[i] == s[i] && o[j] == s[j]);
        } else if j == p {
            assert(o[i] == s[i]);
        } else if i < p {
            assert(o[j] == s[j - 1] && o[i] == s[i]);
        } else if i == p {
            assert(o[j] == s[j - 1]);
            if j - 1 > p {
                assert(initiative_at(t, s[p]) >= initiative_at(t, s[j - 1]));
            }
        } else {
            assert(o[j] == s[j - 1] && o[i] == s[i - 1]);
        }
    }
}

proof fn lemma_insert_with_initiative(
    s: Seq<usize>,
    p: int,
    x: usize,
    t: Seq<Option<EntityState>>,
    v: int,
)
    requires
        0 <= p <= s.len(),
        sorted_by_initiative(s, t),
        p < s.len() ==> initiative_at(t, s[p]) < initiative_at(t, x),
    ensures
        with_initiative(s.insert(p, x), t, v) == with_initiative(s.push(x), t, v),
{
    let pre = s.subrange(0, p);
    let post = s.subrange(p, s.len() as int);
    assert(s =~= pre + post);
    assert(s.insert(p, x) =~= pre.push(x) + post);
    lemma_with_initiative_append(pre.push(x), post, t, v);
    lemma_with_initiative_append(pre, post, t, v);
    lemma_with_initiative_push(pre, x, t, v);
    lemma_with_initiative_push(s, x, t, v);
    let a = with_initiative(pre, t, v);
    let b = with_initiative(post, t, v);
    if initiative_at(t, x) == v {
        assert forall|i: int| 0 <= i < post.len() implies initiative_at(t, #[trigger] post[i])
            != v by {
            assert(post[i] == s[p + i]);
            if i > 0 {
                assert(initiative_at(t, s[p]) >= initiative_at(t, s[p + i]));
            }
        }
        lemma_with_initiative_none(post, t, v);
        assert(a.push(x) + b =~= (a + b).push(x));
    } else {
    }
}

/// The entities of `t` in the order in which they take turns: a stable sort by falling initiative.
fn initiative_order(t: &Vec<Option<EntityState>>) -> (order: Vec<usize>)
    ensures
        all_live(order@, t@),
        stable_initiative_order(order@, live_indices(t@), t@),
{
    let mut order: Vec<usize> = Vec::new();
    let mut i: usize = 0;
    while i < t.len()
        invariant
            i <= t.len(),
            all_live(order@, t@),
            sorted_by_initiative(order@, t@),
            forall|v: int|
                #[trigger] with_initiative(order@, t@, v) == with_initiative(
                    live_indices(t@.subrange(0, i as int)),
                    t@,
                    v,
                ),
        decreases t.len() - i,
    {
        let ghost sub = t@.subrange(0, i as int + 1);
        assert(sub.drop_last() =~= t@.subrange(0, i as int));
        let ghost before = order@;
        let ghost prev = live_indices(t@.subrange(0, i as int));
        if t[i].is_some() {
            insert_by_initiative(&mut order, i, t);
            assert(live_indices(sub) =~= prev.push(i));
            assert forall|v: int|
                #[trigger] with_initiative(order@, t@, v) == with_initiative(
                    live_indices(sub),
                    t@,
                    v,
                ) by {
                lemma_with_initiative_push(before, i, t@, v);
                lemma_with_initiative_push(prev, i, t@, v);
                assert(initiative_at(sub, i) == initiative_at(t@, i));
            }
        } else {
            assert(live_indices(sub) =~= prev);
        }
        i = i + 1;
    }
    assert(t@.subrange(0, t@.len() as int) =~= t@);
    order
}

// ---------------------------------------------------------------------------
// Rotation of the turn order
// ---------------------------------------------------------------------------

/// `q` turned so that its entry at `k` comes first.
pub open spec fn rotate(q: Seq<usize>, k: int) -> Seq<usize> {
    q.subrange(k, q.len() as int) + q.subrange(0, k)
}

/// Whether some entity of `q` takes turns.
pub open spec fn has_taker(q: Seq<usize>, t: Seq<Option<EntityState>>) -> bool {
    exists|i: int| 0 <= i < q.len() && takes_turns(t, #[trigger] q[i])
}

/// Whether `k` is the position of the first entity of `q` that takes turns.
pub open spec fn is_first_taker(q: Seq<usize>, t: Seq<Option<EntityState>>, k: int) -> bool {
    &&& 0 <= k < q.len()
    &&& takes_turns(t, q[k])
    &&& forall|j: int| 0 <= j < k ==> !takes_turns(t, #[trigger] q[j])
}

/// The position of the first entity of `q` that takes turns.
pub open spec fn first_taker(q: Seq<usize>, t: Seq<Option<EntityState>>) -> int {
    choose|k: int| is_first_taker(q, t, k)
}

/// `q` turned until an entity that takes turns stands at its front.
pub open spec fn activated(q: Seq<usize>, t: Seq<Option<EntityState>>) -> Seq<usize> {
    rotate(q, first_taker(q, t))
}

/// The order after a turn: the front moves to the back, then the order turns on
/// until an entity that takes turns stands at its front.
pub open spec fn next_order(q: Seq<usize>, t: Seq<Option<EntityState>>) -> Seq<usize> {
    activated(q.drop_first().push(q[0]), t)
}

pub proof fn lemma_first_taker(q: Seq<usize>, t: Seq<Option<EntityState>>)
    requires
        has_taker(q, t),
    ensures
        is_first_taker(q, t, first_taker(q, t)),
        forall|k: int| is_first_taker(q, t, k) ==> k == first_taker(q, t),
    decreases q.len(),
{
    let d = q.drop_last();
    if has_taker(d, t) {
        lemma_first_taker(d, t);
        let k = first_taker(d, t);
        assert forall|j: int| 0 <= j < k implies !takes_turns(t, #[trigger] q[j]) by {
            assert(q[j] == d[j]);
        }
        assert(q[k] == d[k]);
        assert(is_first_taker(q, t, k));
    } else {
        let i = choose|i: int| 0 <= i < q.len() && takes_turns(t, #[trigger] q[i]);
        if i < q.len() - 1 {
            assert(d[i] == q[i]);
        }
        assert forall|j: int| 0 <= j < q.len() - 1 implies !takes_turns(t, #[trigger] q[j]) by {
            assert(q[j] == d[j]);
        }
        assert(is_first_taker(q, t, q.len() - 1));
    }
    let f = first_taker(q, t);
    assert forall|k: int| is_first_taker(q, t, k) implies k == f by {
        if k < f {
            assert(!takes_turns(t, q[k]));
        } else if f < k {
            assert(!takes_turns(t, q[f]));
        }
    }
}

pub proof fn lemma_rotate_step(q: Seq<usize>, i: int)
    requires
        0 <= i < q.len(),
    ensures
        ({
            let r = rotate(q, i);
            r.drop_first().push(r[0]) == rotate(q, i + 1)
        }),
{
    let r = rotate(q, i);
    assert(r[0] == q[i]);
    assert(r.drop_first().push(r[0]) =~= rotate(q, i + 1));
}

// ---------------------------------------------------------------------------
// What the turn order asks of the entities
// ---------------------------------------------------------------------------

/// Ends the turn of every entity of `q`, in order.
pub open spec fn end_all(q: Seq<usize>) -> Seq<TurnAction>
    decreases q.len(),
{
    if q.len() == 0 {
        Seq::empty()
    } else {
        end_all(q.drop_last()).push(TurnAction::EndTurn(q.last()))
    }
}

/// Starts the turn of every player character of `q`, in order.
pub open spec fn init_pcs(q: Seq<usize>, t: Seq<Option<EntityState>>) -> Seq<TurnAction>
    decreases q.len(),
{
    if q.len() == 0 {
        Seq::empty()
    } else {
        let rest = init_pcs(q.drop_last(), t);
        if pc_at(t, q.last()) {
            rest.push(TurnAction::InitTurn(q.last()))
        } else {
            rest
        }
    }
}

/// What switching turn mode from `was` to `now` asks: leaving turn mode starts the turn of
/// each player character, entering it ends the turn of every entity; either way, and also
/// when the mode stays, the listeners are told.
pub open spec fn set_active_actions(
    q: Seq<usize>,
    t: Seq<Option<EntityState>>,
    was: bool,
    now: bool,
) -> Seq<TurnAction> {
    if was != now {
        (if now {
            end_all(q)
        } else {
            init_pcs(q, t)
        }).push(TurnAction::Notify)
    } else {
        seq![TurnAction::Notify]
    }
}

/// `q` without the entity `e`.
pub open spec fn without(q: Seq<usize>, e: usize) -> Seq<usize>
    decreases q.len(),
{
    if q.len() == 0 {
        Seq::empty()
    } else {
        let rest = without(q.drop_last(), e);
        if q.last() != e {
            rest.push(q.last())
        } else {
            rest
        }
    }
}

/// Every entity left after taking out `e` was in `q`, and is not `e`.
pub proof fn lemma_without_members(q: Seq<usize>, e: usize)
    ensures
        forall|i: int|
            0 <= i < without(q, e).len() ==> in_queue(q, #[trigger] without(q, e)[i])
                && without(q, e)[i] != e,
    decreases q.len(),
{
    if q.len() > 0 {
        let d = q.drop_last();
        lemma_without_members(d, e);
        let r = without(d, e);
        assert forall|i: int| 0 <= i < without(q, e).len() implies in_queue(
            q,
            #[trigger] without(q, e)[i],
        ) && without(q, e)[i] != e by {
            if i < r.len() {
                assert(without(q, e)[i] == r[i]);
                let j = choose|j: int| 0 <= j < d.len() && d[j] == r[i];
                assert(q[j] == d[j]);
            } else {
                assert(without(q, e)[i] == q.last());
                assert(q[q.len() - 1] == q.last());
            }
        }
    }
}

/// The entities of `q` that take turns, in order.
pub open spec fn takers(q: Seq<usize>, t: Seq<Option<EntityState>>) -> Seq<usize>
    decreases q.len(),
{
    if q.len() == 0 {
        Seq::empty()
    } else {
        let rest = takers(q.drop_last(), t);
        if takes_turns(t, q.last()) {
            rest.push(q.last())
        } else {
            rest
        }
    }
}

/// Whether no entity of `q` has an active AI.
pub open spec fn no_ai_active(q: Seq<usize>, t: Seq<Option<EntityState>>) -> bool {
    forall|i: int| 0 <= i < q.len() ==> !ai_active_at(t, #[trigger] q[i])
}

/// The entity that has the turn: none outside turn mode, else the front of the order.
pub open spec fn current_of(q: Seq<usize>, active: bool) -> Option<usize> {
    if active && q.len() > 0 {
        Some(q[0])
    } else {
        None
    }
}

/// Whether `x` is one of the first `n` entities of `q`.
pub open spec fn in_queue_prefix(q: Seq<usize>, n: int, x: usize) -> bool {
    exists|j: int| 0 <= j < n && q[j] == x
}

/// Whether `x` is one of `q`.
pub open spec fn in_queue(q: Seq<usize>, x: usize) -> bool {
    in_queue_prefix(q, q.len() as int, x)
}

/// Whether the entity `x` of `t` is woken by the player character coming into its sight:
/// it is not the player character, its AI is idle, and it sees the player character.
pub open spec fn wakes(t: Seq<Option<EntityState>>, x: usize, visible: Seq<bool>) -> bool {
    &&& live(t, x)
    &&& !state_at(t, x).is_pc
    &&& !state_at(t, x).ai_active
    &&& x < visible.len()
    &&& visible[x as int]
}

/// Whether some entity of `q` wakes.
pub open spec fn wakes_any(q: Seq<usize>, t: Seq<Option<EntityState>>, visible: Seq<bool>) -> bool {
    exists|j: int| 0 <= j < q.len() && wakes(t, #[trigger] q[j], visible)
}

/// The state of an entity once its AI is active.
pub open spec fn awake(e: EntityState) -> EntityState {
    EntityState { ai_active: true, ..e }
}

/// `t` after the AI of each of the first `n` entities of `q` that wakes is made active.
pub open spec fn wake_prefix(
    q: Seq<usize>,
    n: int,
    t: Seq<Option<EntityState>>,
    visible: Seq<bool>,
) -> Seq<Option<EntityState>> {
    Seq::new(
        t.len(),
        |i: int|
            if in_queue_prefix(q, n, i as usize) && wakes(t, i as usize, visible) {
                Some(awake(t[i].unwrap()))
            } else {
                t[i]
            },
    )
}

/// `t` after the AI of each entity of `q` that wakes is made active.
pub open spec fn wake_table(
    q: Seq<usize>,
    t: Seq<Option<EntityState>>,
    visible: Seq<bool>,
) -> Seq<Option<EntityState>> {
    wake_prefix(q, q.len() as int, t, visible)
}

// ---------------------------------------------------------------------------
// The turn order
// ---------------------------------------------------------------------------

/// The entities of an area in initiative order, with the front of the order holding
/// the entity whose turn it is. Once an entity's turn is up, it moves to the back.
/// Outside turn mode no entity has the turn.
pub struct TurnTimer {
    entities: VecDeque<usize>,
    active: bool,
}

impl Default for TurnTimer {
    fn default() -> (timer: TurnTimer)
        ensures
            timer.order() == Seq::<usize>::empty(),
            !timer.turn_mode(),
    {
        TurnTimer { entities: VecDeque::new(), active: false }
    }
}

impl TurnTimer {
    /// The entities in the order in which they take turns.
    pub closed spec fn order(&self) -> Seq<usize> {
        self.entities@
    }

    /// Whether the game is in turn mode.
    pub closed spec fn turn_mode(&self) -> bool {
        self.active
    }

    /// The order of the entities of `t`: the stable sort by falling initiative.
    /// The first entity, if there is one, starts its turn. The new order is not in turn mode.
    pub fn new(t: &Vec<Option<EntityState>>) -> (r: (TurnTimer, Vec<TurnAction>))
        ensures
            stable_initiative_order(r.0.order(), live_indices(t@), t@),
            all_live(r.0.order(), t@),
            !r.0.turn_mode(),
            r.1@ == if r.0.order().len() > 0 {
                seq![TurnAction::InitTurn(r.0.order()[0])]
            } else {
                Seq::empty()
            },
    {
        let order = initiative_order(t);
        let mut entities: VecDeque<usize> = VecDeque::new();
        let mut i: usize = 0;
        while i < order.len()
            invariant
                i <= order.len(),
                entities@ == order@.subrange(0, i as int),
            decreases order.len() - i,
        {
            entities.push_back(order[i]);
            i = i + 1;
            assert(entities@ =~= order@.subrange(0, i as int));
        }
        assert(order@.subrange(0, order@.len() as int) =~= order@);
        let mut actions: Vec<TurnAction> = Vec::new();
        if entities.len() > 0 {
            actions.push(TurnAction::InitTurn(entities[0]));
        }
        (TurnTimer { entities, active: false }, actions)
    }

    /// The entities in the order in which they take turns.
    pub fn entity_order(&self) -> (r: Vec<usize>)
        ensures
            r@ == self.order(),
    {
        let mut r: Vec<usize> = Vec::new();
        let mut i: usize = 0;
        while i < self.entities.len()
            invariant
                i <= self.entities@.len(),
                r@ == self.entities@.subrange(0, i as int),
            decreases self.entities@.len() - i,
        {
            r.push(self.entities[i]);
            i = i + 1;
            assert(r@ =~= self.entities@.subrange(0, i as int));
        }
        assert(self.entities@.subrange(0, self.entities@.len() as int) =~= self.entities@);
        r
    }

    /// Whether the game is in turn mode.
    pub fn is_active(&self) -> (r: bool)
        ensures
            r == self.turn_mode(),
    {
        self.active
    }

    /// Switches turn mode on or off. Leaving turn mode starts the turn of each player
    /// character; entering it ends the turn of every entity. The listeners are told in any case.
    pub fn set_active(&mut self, active: bool, t: &Vec<Option<EntityState>>) -> (actions: Vec<TurnAction>)
        requires
            all_live(old(self).order(), t@),
        ensures
            final(self).order() == old(self).order(),
            final(self).turn_mode() == active,
            actions@ == set_active_actions(old(self).order(), t@, old(self).turn_mode(), active),
    {
        let mut actions: Vec<TurnAction> = Vec::new();
        if active != self.active {
            self.active = active;
            let mut i: usize = 0;
            while i < self.entities.len()
                invariant
                    i <= self.entities@.len(),
                    self.entities@ == old(self).order(),
                    self.active == active,
                    all_live(self.entities@, t@),
                    actions@ == if active {
                        end_all(self.entities@.subrange(0, i as int))
                    } else {
                        init_pcs(self.entities@.subrange(0, i as int), t@)
                    },
                decreases self.entities@.len() - i,
            {
                let e = self.entities[i];
                let ghost pre = self.entities@.subrange(0, i as int);
                assert(self.entities@.subrange(0, i + 1).drop_last() =~= pre);
                if !active {
                    let is_pc = match &t[e] {
                        Some(s) => s.is_pc,
                        None => false,
                    };
                    if is_pc {
                        actions.push(TurnAction::InitTurn(e));
                    }
                } else {
                    actions.push(TurnAction::EndTurn(e));
                }
                i = i + 1;
            }
            assert(self.entities@.subrange(0, self.entities@.len() as int) =~= self.entities@);
        }
        actions.push(TurnAction::Notify);
        actions
    }

    /// Puts `entity` at the back of the order. If it is the only entity, it starts its turn.
    /// The listeners are told.
    pub fn add(&mut self, entity: usize) -> (actions: Vec<TurnAction>)
        ensures
            final(self).order() == old(self).order().push(entity),
            final(self).turn_mode() == old(self).turn_mode(),
            actions@ == if old(self).order().len() == 0 {
                seq![TurnAction::InitTurn(entity), TurnAction::Notify]
            } else {
                seq![TurnAction::Notify]
            },
    {
        self.entities.push_back(entity);
        let mut actions: Vec<TurnAction> = Vec::new();
        if self.entities.len() == 1 {
            actions.push(TurnAction::InitTurn(entity));
        }
        actions.push(TurnAction::Notify);
        actions
    }

    /// Takes `entity` out of the order. When no entity left has an active AI, turn mode ends;
    /// otherwise the listeners are told.
    pub fn remove(&mut self, entity: usize, t: &Vec<Option<EntityState>>) -> (actions: Vec<TurnAction>)
        requires
            all_live(old(self).order(), t@),
        ensures
            final(self).order() == without(old(self).order(), entity),
            no_ai_active(final(self).order(), t@) ==> final(self).turn_mode() == false
                && actions@ == set_active_actions(
                final(self).order(),
                t@,
                old(self).turn_mode(),
                false,
            ),
            !no_ai_active(final(self).order(), t@) ==> final(self).turn_mode() == old(
                self,
            ).turn_mode() && actions@ == seq![TurnAction::Notify],
    {
        let mut kept: VecDeque<usize> = VecDeque::new();
        let mut any_ai = false;
        let mut i: usize = 0;
        while i < self.entities.len()
            invariant
                i <= self.entities@.len(),
                self.entities@ == old(self).order(),
                self.active == old(self).turn_mode(),
                all_live(self.entities@, t@),
                kept@ == without(self.entities@.subrange(0, i as int), entity),
                all_live(kept@, t@),
                any_ai == !no_ai_active(kept@, t@),
            decreases self.entities@.len() - i,
        {
            let e = self.entities[i];
            let ghost pre = self.entities@.subrange(0, i as int);
            assert(self.entities@.subrange(0, i + 1).drop_last() =~= pre);
            if e != entity {
                let ghost before = kept@;
                kept.push_back(e);
                let ai = match &t[e] {
                    Some(s) => s.ai_active,
                    None => false,
                };
                proof {
                    if any_ai {
                        let k = choose|k: int| 0 <= k < before.len() && ai_active_at(t@, #[trigger] before[k]);
                        assert(kept@[k] == before[k]);
                    }
                    if ai {
                        assert(kept@[before.len() as int] == e);
                    }
                    if !any_ai && !ai {
                        assert forall|k: int| 0 <= k < kept@.len() implies !ai_active_at(t@, #[trigger] kept@[k]) by {
                            if k < before.len() {
                                assert(kept@[k] == before[k]);
                            }
                        }
                    }
                }
                any_ai = any_ai || ai;
            }
            i = i + 1;
        }
        assert(self.entities@.subrange(0, self.entities@.len() as int) =~= self.entities@);
        self.entities = kept;
        if !any_ai {
            self.set_active(false, t)
        } else {
            let mut actions: Vec<TurnAction> = Vec::new();
            actions.push(TurnAction::Notify);
            actions
        }
    }

    /// The entity whose turn it is: none outside turn mode, else the front of the order.
    pub fn current(&self) -> (r: Option<usize>)
        ensures
            r == current_of(self.order(), self.turn_mode()),
    {
        if !self.active {
            return None;
        }
        if self.entities.len() > 0 {
            Some(self.entities[0])
        } else {
            None
        }
    }

    /// Ends the turn of the current entity and moves it to the back; the order then turns on
    /// until an entity that takes turns stands at its front, and that entity starts its turn.
    /// Outside turn mode, or with no entities, nothing happens.
    pub fn next(&mut self, t: &Vec<Option<EntityState>>) -> (actions: Vec<TurnAction>)
        requires
            all_live(old(self).order(), t@),
            old(self).turn_mode() && old(self).order().len() > 0 ==> has_taker(old(self).order(), t@),
        ensures
            final(self).turn_mode() == old(self).turn_mode(),
            !old(self).turn_mode() || old(self).order().len() == 0 ==> final(self).order() == old(
                self,
            ).order() && actions@ == Seq::<TurnAction>::empty(),
            old(self).turn_mode() && old(self).order().len() > 0 ==> final(self).order()
                == next_order(old(self).order(), t@) && actions@ == seq![
                TurnAction::EndTurn(old(self).order()[0]),
                TurnAction::InitTurn(final(self).order()[0]),
                TurnAction::Notify,
            ],
    {
        if !self.active || self.entities.len() == 0 {
            return Vec::new();
        }
        let ghost q = self.entities@;
        let front = self.entities.pop_front();
        let mut actions: Vec<TurnAction> = Vec::new();
        match front {
            Some(f) => {
                actions.push(TurnAction::EndTurn(f));
                self.entities.push_back(f);
            },
            None => {},
        }
        proof {
            let r = q.drop_first().push(q[0]);
            assert(self.entities@ =~= r);
            let k = choose|i: int| 0 <= i < q.len() && takes_turns(t@, #[trigger] q[i]);
            if k == 0 {
                assert(r[r.len() - 1] == q[0]);
            } else {
                assert(r[k - 1] == q[k]);
            }
            assert forall|i: int| 0 <= i < r.len() implies live(t@, #[trigger] r[i]) by {
                if i < r.len() - 1 {
                    assert(r[i] == q[i + 1]);
                } else {
                    assert(r[i] == q[0]);
                }
            }
        }
        let more = self.activate_current(t);
        actions.push(more[0]);
        actions.push(TurnAction::Notify);
        proof {
            assert(actions@ =~= seq![
                TurnAction::EndTurn(q[0]),
                TurnAction::InitTurn(self.entities@[0]),
                TurnAction::Notify,
            ]);
        }
        actions
    }

    /// Turns the order until an entity that takes turns stands at its front, and starts its turn.
    fn activate_current(&mut self, t: &Vec<Option<EntityState>>) -> (actions: Vec<TurnAction>)
        requires
            all_live(old(self).order(), t@),
            has_taker(old(self).order(), t@),
        ensures
            final(self).order() == activated(old(self).order(), t@),
            final(self).turn_mode() == old(self).turn_mode(),
            final(self).order().len() == old(self).order().len(),
            actions@ == seq![TurnAction::InitTurn(final(self).order()[0])],
    {
        let ghost q = self.entities@;
        proof {
            lemma_first_taker(q, t@);
        }
        let ghost k = first_taker(q, t@);
        let ghost mut i: int = 0;
        assert(rotate(q, 0) =~= q);
        loop
            invariant
                0 <= i <= k,
                is_first_taker(q, t@, k),
                all_live(q, t@),
                self.entities@ == rotate(q, i),
                self.active == old(self).turn_mode(),
            ensures
                i == k,
                self.entities@ == rotate(q, i),
                self.active == old(self).turn_mode(),
            decreases k - i,
        {
            assert(self.entities@[0] == q[i]);
            let front = self.entities[0];
            let takes = match &t[front] {
                Some(s) => s.is_pc || s.ai_active,
                None => false,
            };
            if takes {
                break;
            }
            let f = self.entities.pop_front();
            match f {
                Some(x) => {
                    self.entities.push_back(x);
                },
                None => {},
            }
            proof {
                lemma_rotate_step(q, i);
                i = i + 1;
            }
        }
        let mut actions: Vec<TurnAction> = Vec::new();
        actions.push(TurnAction::InitTurn(self.entities[0]));
        actions
    }

    /// Wakes the AI of each entity of the order that is not the player character, whose AI
    /// is idle, and that sees the player character (`visible` tells, by entity index, which
    /// entities do). If any woke, turn mode begins and the first entity that takes turns
    /// starts its turn.
    pub fn check_ai_activation(
        &mut self,
        visible: &Vec<bool>,
        t: &mut Vec<Option<EntityState>>,
    ) -> (actions: Vec<TurnAction>)
        requires
            all_live(old(self).order(), old(t)@),
            visible@.len() == old(t)@.len(),
        ensures
            final(t)@ == wake_table(old(self).order(), old(t)@, visible@),
            wakes_any(old(self).order(), old(t)@, visible@) ==> final(self).turn_mode()
                && final(self).order() == activated(old(self).order(), final(t)@) && actions@
                == set_active_actions(
                old(self).order(),
                final(t)@,
                old(self).turn_mode(),
                true,
            ).push(TurnAction::InitTurn(final(self).order()[0])),
            !wakes_any(old(self).order(), old(t)@, visible@) ==> final(self).turn_mode() == old(
                self,
            ).turn_mode() && final(self).order() == old(self).order() && actions@ == Seq::<
                TurnAction,
            >::empty(),
    {
        let ghost q = self.entities@;
        let ghost t0 = t@;
        assert(t0.len() == t.len());
        let mut updated = false;
        let mut i: usize = 0;
        assert(t@ =~= wake_prefix(q, 0, t0, visible@));
        while i < self.entities.len()
            invariant
                i <= q.len(),
                self.entities@ == q,
                self.active == old(self).turn_mode(),
                all_live(q, t0),
                visible@.len() == t0.len(),
                t@ == wake_prefix(q, i as int, t0, visible@),
                updated == exists|j: int| 0 <= j < i && wakes(t0, #[trigger] q[j], visible@),
            decreases q.len() - i,
        {
            let e = self.entities[i];
            assert(live(t0, e));
            let (pc, ai) = match &t[e] {
                Some(s) => (s.is_pc, s.ai_active),
                None => (false, false),
            };
            let ghost before = t@;
            proof {
                assert forall|x: usize| #[trigger] in_queue_prefix(q, i + 1, x) == (in_queue_prefix(
                    q,
                    i as int,
                    x,
                ) || x == e) by {
                    if x == e {
                        assert(q[i as int] == e);
                        assert(in_queue_prefix(q, i + 1, x));
                    }
                    if in_queue_prefix(q, i as int, x) {
                        let j = choose|j: int| 0 <= j < i && q[j] == x;
                        assert(0 <= j < i + 1 && q[j] == x);
                    }
                    if in_queue_prefix(q, i + 1, x) && !in_queue_prefix(q, i as int, x) {
                        let j = choose|j: int| 0 <= j < i + 1 && q[j] == x;
                        if j < i {
                            assert(in_queue_prefix(q, i as int, x));
                        }
                        assert(j == i);
                    }
                }
            }
            if !pc && !ai && visible[e] {
                if let Some(s) = &t[e] {
                    let woken = EntityState { ai_active: true, ..*s };
                    t.set(e, Some(woken));
                }
                updated = true;
                proof {
                    assert(!in_queue_prefix(q, i as int, e));
                    assert(wakes(t0, e, visible@));
                    assert(before[e as int] == t0[e as int]);
                    let w = wake_prefix(q, i + 1, t0, visible@);
                    assert(t@.len() == t.len());
                    assert forall|x: int| 0 <= x < t@.len() implies t@[x] == w[x] by {
                        if x == e {
                            assert(in_queue_prefix(q, i + 1, x as usize));
                        } else {
                            assert(in_queue_prefix(q, i + 1, x as usize) == in_queue_prefix(q, i as int, x as usize));
                        }
                    }
                    assert(t@ =~= w);
                }
            } else {
                proof {
                    if wakes(t0, e, visible@) {
                        assert(in_queue_prefix(q, i as int, e));
                    }
                    let w = wake_prefix(q, i + 1, t0, visible@);
                    assert(t@.len() == t.len());
                    assert forall|x: int| 0 <= x < t@.len() implies t@[x] == w[x] by {
                        assert(in_queue_prefix(q, i + 1, x as usize) == (in_queue_prefix(q, i as int, x as usize) || x as usize == e));
                    }
                    assert(t@ =~= w);
                }
            }
            proof {
                if wakes(t0, e, visible@) {
                    assert(wakes(t0, q[i as int], visible@));
                }
            }
            i = i + 1;
        }
        if updated {
            proof {
                let j = choose|j: int| 0 <= j < q.len() && wakes(t0, #[trigger] q[j], visible@);
                assert(in_queue(q, q[j]));
                assert(takes_turns(t@, q[j]));
                assert forall|x: int| 0 <= x < q.len() implies live(t@, #[trigger] q[x]) by {}
            }
            let mut actions = self.set_active(true, t);
            let more = self.activate_current(t);
            actions.push(more[0]);
            actions
        } else {
            Vec::new()
        }
    }

    /// The entities that take turns, in order; none outside turn mode.
    fn active_entities(&self, t: &Vec<Option<EntityState>>) -> (r: Vec<usize>)
        requires
            all_live(self.order(), t@),
        ensures
            r@ == if self.turn_mode() {
                takers(self.order(), t@)
            } else {
                Seq::empty()
            },
    {
        let mut r: Vec<usize> = Vec::new();
        if !self.active {
            return r;
        }
        let mut i: usize = 0;
        while i < self.entities.len()
            invariant
                i <= self.entities@.len(),
                all_live(self.entities@, t@),
                r@ == takers(self.entities@.subrange(0, i as int), t@),
            decreases self.entities@.len() - i,
        {
            let e = self.entities[i];
            assert(self.entities@.subrange(0, i + 1).drop_last() =~= self.entities@.subrange(0, i as int));
            let takes = match &t[e] {
                Some(s) => s.is_pc || s.ai_active,
                None => false,
            };
            if takes {
                r.push(e);
            }
            i = i + 1;
        }
        assert(self.entities@.subrange(0, self.entities@.len() as int) =~= self.entities@);
        r
    }

    /// A walk over the entities that take turns, in order; empty outside turn mode.
    pub fn active_iter(&self, t: &Vec<Option<EntityState>>) -> (it: ActiveEntityIterator)
        requires
            all_live(self.order(), t@),
        ensures
            it.given() == Seq::<usize>::empty(),
            it.remaining() == if self.turn_mode() {
                takers(self.order(), t@)
            } else {
                Seq::empty()
            },
    {
        ActiveEntityIterator { entities: self.active_entities(t), pos: 0 }
    }
}

/// A walk over the entities of a turn order that take turns.
pub struct ActiveEntityIterator {
    entities: Vec<usize>,
    pos: usize,
}

impl ActiveEntityIterator {
    /// The entities that the walk has yet to give.
    pub closed spec fn remaining(&self) -> Seq<usize> {
        self.entities@.subrange(self.pos as int, self.entities@.len() as int)
    }

    /// The entities that the walk has given so far.
    pub closed spec fn given(&self) -> Seq<usize> {
        self.entities@.subrange(0, self.pos as int)
    }

    #[verifier::type_invariant]
    closed spec fn wf(&self) -> bool {
        self.pos <= self.entities@.len()
    }

    /// The next entity of the walk, if any.
    pub fn next(&mut self) -> (r: Option<usize>)
        ensures
            final(self).given() + final(self).remaining() == old(self).given() + old(self).remaining(),
            old(self).remaining().len() == 0 ==> r is None && final(self).remaining() == old(
                self,
            ).remaining(),
            old(self).remaining().len() > 0 ==> r == Some(old(self).remaining()[0])
                && final(self).remaining() == old(self).remaining().drop_first()
                && final(self).given() == old(self).given().push(old(self).remaining()[0]),
    {
        proof {
            use_type_invariant(&*self);
        }
        if self.pos < self.entities.len() {
            let e = self.entities[self.pos];
            self.pos = self.pos + 1;
            assert(self.remaining() =~= old(self).remaining().drop_first());
            assert(self.given() =~= old(self).given().push(e));
            assert(self.given() + self.remaining() =~= self.entities@);
            assert(old(self).given() + old(self).remaining() =~= self.entities@);
            Some(e)
        } else {
            None
        }
    }
}

} // verus!
