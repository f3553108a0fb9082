use vstd::prelude::*;

use crate::entity::{ai_active_at, all_live, live, takes_turns, EntityState, TurnAction};
use crate::turn_timer::{
    activated, current_of, first_taker, has_taker, initiative_at, lemma_first_taker,
    lemma_with_initiative_append, next_order, rotate, set_active_actions,
    stable_initiative_order, takers, wake_table, wakes, wakes_any, with_initiative, without,
    in_queue, in_queue_prefix, no_ai_active, wake_prefix,
};

verus! {

proof fn lemma_rotate_multiset(q: Seq<usize>, k: int)
    requires
        0 <= k <= q.len(),
    ensures
        rotate(q, k).to_multiset() == q.to_multiset(),
        rotate(q, k).len() == q.len(),
{
    let a = q.subrange(0, k);
    let b = q.subrange(k, q.len() as int);
    assert(q =~= a + b);
    vstd::seq_lib::lemma_multiset_commutative(b, a);
    vstd::seq_lib::lemma_multiset_commutative(a, b);
    assert(b.to_multiset().add(a.to_multiset()) =~= a.to_multiset().add(b.to_multiset()));
}

proof fn lemma_rotate_one_has_taker(q: Seq<usize>, t: Seq<Option<EntityState>>)
    requires
        q.len() > 0,
        has_taker(q, t),
    ensures
        q.drop_first().push(q[0]) == rotate(q, 1),
        has_taker(rotate(q, 1), t),
{
    let r = q.drop_first().push(q[0]);
    assert(r =~= rotate(q, 1));
    let i = choose|i: int| 0 <= i < q.len() && takes_turns(t, #[trigger] q[i]);
    if i == 0 {
        assert(r[r.len() - 1] == q[0]);
    } else {
        assert(r[i - 1] == q[i]);
    }
}

/// Passing the turn keeps the same entities in the order, each as often as before.
pub proof fn law_next_keeps_entities(q: Seq<usize>, t: Seq<Option<EntityState>>)
    requires
        q.len() > 0,
        has_taker(q, t),
    ensures
        next_order(q, t).to_multiset() == q.to_multiset(),
        next_order(q, t).len() == q.len(),
{
    lemma_rotate_one_has_taker(q, t);
    let r = rotate(q, 1);
    lemma_rotate_multiset(q, 1);
    lemma_first_taker(r, t);
    lemma_rotate_multiset(r, first_taker(r, t));
}

proof fn lemma_rotate_twice(q: Seq<usize>, j: int)
    requires
        q.len() > 0,
        0 <= j < q.len(),
    ensures
        rotate(rotate(q, 1), j) == rotate(q, if j + 1 < q.len() { j + 1 } else { 0 }),
{
    let n = q.len() as int;
    let r = rotate(q, 1);
    let k = if j + 1 < n { j + 1 } else { 0 };
    assert forall|i: int| 0 <= i < n implies #[trigger] rotate(r, j)[i] == rotate(q, k)[i] by {
        let a = if i < n - j { r[j + i] } else { r[i - (n - j)] };
        assert(rotate(r, j)[i] == a);
        assert forall|m: int| 0 <= m < n implies #[trigger] r[m] == if m < n - 1 { q[m + 1] } else { q[0] } by {}
        if k == 0 {
            assert(rotate(q, 0)[i] == q[i]);
        } else {
            assert(rotate(q, k)[i] == if i < n - k { q[k + i] } else { q[i - (n - k)] });
        }
    }
    assert(rotate(r, j) =~= rotate(q, k));
}

/// Passing the turn keeps the cyclic order of the entities: the new order is the old one
/// turned, with the entity after the previous current one, or the first that takes turns
/// after it, at the front.
pub proof fn law_next_keeps_cyclic_order(q: Seq<usize>, t: Seq<Option<EntityState>>)
    requires
        q.len() > 0,
        has_taker(q, t),
    ensures
        ({
            let j = first_taker(rotate(q, 1), t);
            next_order(q, t) == rotate(q, if j + 1 < q.len() { j + 1 } else { 0 })
        }),
{
    lemma_rotate_one_has_taker(q, t);
    let r = rotate(q, 1);
    lemma_first_taker(r, t);
    lemma_rotate_twice(q, first_taker(r, t));
}

/// After the turn passes, the entity whose turn it is takes turns, and every entity
/// that it passed over on the way does not.
pub proof fn law_next_gives_turn_to_taker(q: Seq<usize>, t: Seq<Option<EntityState>>)
    requires
        q.len() > 0,
        has_taker(q, t),
    ensures
        takes_turns(t, next_order(q, t)[0]),
        forall|j: int|
            0 <= j < first_taker(rotate(q, 1), t) ==> !takes_turns(t, #[trigger] rotate(q, 1)[j]),
{
    lemma_rotate_one_has_taker(q, t);
    let r = rotate(q, 1);
    lemma_first_taker(r, t);
    let k = first_taker(r, t);
    assert(activated(r, t)[0] == r[k]);
}

/// Outside turn mode no entity has the turn; in turn mode the front of the order has it.
pub proof fn law_turn_belongs_to_front(q: Seq<usize>)
    ensures
        current_of(q, false) is None,
        q.len() > 0 ==> current_of(q, true) == Some(q[0]),
{
}

/// Switching turn mode to the mode it is already in only tells the listeners.
pub proof fn law_set_active_same_mode(q: Seq<usize>, t: Seq<Option<EntityState>>, mode: bool)
    ensures
        set_active_actions(q, t, mode, mode) == seq![TurnAction::Notify],
{
}

/// Removing an entity leaves no trace of it, and keeps every other entity as often as before.
pub proof fn law_remove_takes_entity_out(q: Seq<usize>, e: usize)
    ensures
        forall|i: int| 0 <= i < without(q, e).len() ==> #[trigger] without(q, e)[i] != e,
        forall|x: usize| x != e ==> #[trigger] without(q, e).to_multiset().count(x) == q.to_multiset().count(x),
        without(q, e).to_multiset().count(e) == 0,
    decreases q.len(),
{
    broadcast use vstd::multiset::group_multiset_axioms;
    broadcast use vstd::seq_lib::group_to_multiset_ensures;

    if q.len() == 0 {
        assert(without(q, e) =~= Seq::<usize>::empty());
        assert(q =~= Seq::<usize>::empty());
    } else {
        let d = q.drop_last();
        law_remove_takes_entity_out(d, e);
        assert(q =~= d.push(q.last()));
        let w = without(d, e);
        if q.last() != e {
            assert(without(q, e) == w.push(q.last()));
            assert forall|i: int| 0 <= i < without(q, e).len() implies #[trigger] without(q, e)[i] != e by {
                if i < w.len() {
                    assert(without(q, e)[i] == w[i]);
                }
            }
            assert forall|x: usize| x != e implies #[trigger] without(q, e).to_multiset().count(x) == q.to_multiset().count(x) by {
                assert(w.push(q.last()).to_multiset() == w.to_multiset().insert(q.last()));
                assert(d.push(q.last()).to_multiset() == d.to_multiset().insert(q.last()));
            }
            assert(w.push(q.last()).to_multiset() == w.to_multiset().insert(q.last()));
        } else {
            assert(without(q, e) == w);
            assert forall|x: usize| x != e implies #[trigger] without(q, e).to_multiset().count(x) == q.to_multiset().count(x) by {
                assert(d.push(q.last()).to_multiset() == d.to_multiset().insert(q.last()));
            }
        }
    }
}

/// Removing an entity undoes adding it.
pub proof fn law_remove_undoes_add(q: Seq<usize>, e: usize)
    ensures
        without(q.push(e), e) == without(q, e),
{
    assert(q.push(e).drop_last() =~= q);
}

/// The entities listed as taking part in turns all take turns, and all come from the order.
pub proof fn law_active_entities_take_turns(q: Seq<usize>, t: Seq<Option<EntityState>>)
    ensures
        forall|i: int| 0 <= i < takers(q, t).len() ==> takes_turns(t, #[trigger] takers(q, t)[i]),
        forall|i: int| 0 <= i < takers(q, t).len() ==> in_queue(q, #[trigger] takers(q, t)[i]),
    decreases q.len(),
{
    if q.len() > 0 {
        let d = q.drop_last();
        law_active_entities_take_turns(d, t);
        let r = takers(d, t);
        assert forall|i: int| 0 <= i < takers(q, t).len() implies takes_turns(t, #[trigger] takers(q, t)[i])
            && in_queue(q, takers(q, t)[i]) by {
            if i < r.len() {
                assert(takers(q, t)[i] == r[i]);
                let j = choose|j: int| 0 <= j < d.len() && d[j] == r[i];
                assert(q[j] == d[j]);
            } else {
                assert(takers(q, t)[i] == q.last());
                assert(q[q.len() - 1] == q.last());
            }
        }
    }
}

/// When an entity wakes, someone takes turns afterwards, so turn mode can begin.
pub proof fn law_waking_gives_a_taker(q: Seq<usize>, t: Seq<Option<EntityState>>, visible: Seq<bool>)
    requires
        wakes_any(q, t, visible),
    ensures
        has_taker(q, wake_table(q, t, visible)),
{
    let j = choose|j: int| 0 <= j < q.len() && wakes(t, #[trigger] q[j], visible);
    assert(in_queue_prefix(q, q.len() as int, q[j]));
    assert(takes_turns(wake_table(q, t, visible), q[j]));
}

proof fn lemma_with_initiative_first(a: Seq<usize>, t: Seq<Option<EntityState>>, v: int)
    requires
        a.len() > 0,
    ensures
        with_initiative(a, t, v) == with_initiative(seq![a[0]], t, v) + with_initiative(
            a.drop_first(),
            t,
            v,
        ),
        with_initiative(seq![a[0]], t, v) == if initiative_at(t, a[0]) == v {
            seq![a[0]]
        } else {
            Seq::<usize>::empty()
        },
{
    assert(a =~= seq![a[0]] + a.drop_first());
    lemma_with_initiative_append(seq![a[0]], a.drop_first(), t, v);
    assert(seq![a[0]].drop_last() =~= Seq::<usize>::empty());
    assert(with_initiative(Seq::<usize>::empty(), t, v) =~= Seq::<usize>::empty());
    if initiative_at(t, a[0]) == v {
        assert(Seq::<usize>::empty().push(a[0]) =~= seq![a[0]]);
    }
}

proof fn lemma_class_member(a: Seq<usize>, t: Seq<Option<EntityState>>, i: int)
    requires
        0 <= i < a.len(),
    ensures
        with_initiative(a, t, initiative_at(t, a[i])).len() > 0,
    decreases a.len(),
{
    let v = initiative_at(t, a[i]);
    if i == a.len() - 1 {
    } else {
        lemma_class_member(a.drop_last(), t, i);
        assert(a.drop_last()[i] == a[i]);
    }
}

proof fn lemma_class_elements(a: Seq<usize>, t: Seq<Option<EntityState>>, v: int, k: int)
    requires
        0 <= k < with_initiative(a, t, v).len(),
    ensures
        in_queue(a, with_initiative(a, t, v)[k]),
        initiative_at(t, with_initiative(a, t, v)[k]) == v,
    decreases a.len(),
{
    let d = a.drop_last();
    let w = with_initiative(d, t, v);
    if k < w.len() {
        lemma_class_elements(d, t, v, k);
        assert(with_initiative(a, t, v)[k] == w[k]);
        let j = choose|j: int| 0 <= j < d.len() && d[j] == w[k];
        assert(a[j] == d[j]);
    } else {
        assert(with_initiative(a, t, v)[k] == a.last());
        assert(a[a.len() - 1] == a.last());
    }
}

/// There is only one initiative order for a list of entities: two orders that are both
/// the stable sort of the same list by falling initiative are equal.
pub proof fn law_initiative_order_unique(
    a: Seq<usize>,
    b: Seq<usize>,
    input: Seq<usize>,
    t: Seq<Option<EntityState>>,
)
    requires
        stable_initiative_order(a, input, t),
        stable_initiative_order(b, input, t),
    ensures
        a == b,
    decreases a.len() + b.len(),
{
    assert(forall|v: int| #[trigger] with_initiative(a, t, v) == with_initiative(b, t, v)) by {
        assert forall|v: int| #[trigger] with_initiative(a, t, v) == with_initiative(b, t, v) by {
            assert(with_initiative(a, t, v) == with_initiative(input, t, v));
            assert(with_initiative(b, t, v) == with_initiative(input, t, v));
        }
    }
    law_sorted_classes_determine_order(a, b, t);
}

/// Two orders sorted by falling initiative that hold, for each initiative, the same
/// entities in the same order, are equal.
pub proof fn law_sorted_classes_determine_order(a: Seq<usize>, b: Seq<usize>, t: Seq<Option<EntityState>>)
    requires
        crate::turn_timer::sorted_by_initiative(a, t),
        crate::turn_timer::sorted_by_initiative(b, t),
        forall|v: int| #[trigger] with_initiative(a, t, v) == with_initiative(b, t, v),
    ensures
        a == b,
    decreases a.len() + b.len(),
{
    if a.len() == 0 && b.len() == 0 {
        assert(a =~= b);
    } else if a.len() == 0 {
        lemma_class_member(b, t, 0);
        assert(with_initiative(a, t, initiative_at(t, b[0])) =~= Seq::<usize>::empty());
    } else if b.len() == 0 {
        lemma_class_member(a, t, 0);
        assert(with_initiative(b, t, initiative_at(t, a[0])) =~= Seq::<usize>::empty());
    } else {
        let va = initiative_at(t, a[0]);
        let vb = initiative_at(t, b[0]);
        // the first entity of each order has the highest initiative of the other
        lemma_class_member(b, t, 0);
        lemma_class_elements(a, t, vb, 0);
        let ja = choose|j: int| 0 <= j < a.len() && a[j] == with_initiative(a, t, vb)[0];
        assert(va >= vb) by {
            if ja > 0 {
                assert(initiative_at(t, a[0]) >= initiative_at(t, a[ja]));
            }
        }
        lemma_class_member(a, t, 0);
        lemma_class_elements(b, t, va, 0);
        let jb = choose|j: int| 0 <= j < b.len() && b[j] == with_initiative(b, t, va)[0];
        assert(vb >= va) by {
            if jb > 0 {
                assert(initiative_at(t, b[0]) >= initiative_at(t, b[jb]));
            }
        }
        lemma_with_initiative_first(a, t, va);
        lemma_with_initiative_first(b, t, va);
        assert(with_initiative(a, t, va)[0] == a[0]);
        assert(with_initiative(b, t, va)[0] == b[0]);
        assert(a[0] == b[0]);
        let a1 = a.drop_first();
        let b1 = b.drop_first();
        assert forall|v: int| #[trigger] with_initiative(a1, t, v) == with_initiative(b1, t, v) by {
            lemma_with_initiative_first(a, t, v);
            lemma_with_initiative_first(b, t, v);
            let h = with_initiative(seq![a[0]], t, v);
            assert(with_initiative(a, t, v) == with_initiative(b, t, v));
            assert(with_initiative(a1, t, v) =~= with_initiative(a, t, v).subrange(h.len() as int, with_initiative(a, t, v).len() as int));
            assert(with_initiative(b1, t, v) =~= with_initiative(b, t, v).subrange(h.len() as int, with_initiative(b, t, v).len() as int));
        }
        assert(crate::turn_timer::sorted_by_initiative(a1, t)) by {
            assert forall|i: int, j: int| 0 <= i < j < a1.len() implies initiative_at(t, #[trigger] a1[i]) >= initiative_at(t, #[trigger] a1[j]) by {
                assert(a1[i] == a[i + 1] && a1[j] == a[j + 1]);
            }
        }
        assert(crate::turn_timer::sorted_by_initiative(b1, t)) by {
            assert forall|i: int, j: int| 0 <= i < j < b1.len() implies initiative_at(t, #[trigger] b1[i]) >= initiative_at(t, #[trigger] b1[j]) by {
                assert(b1[i] == b[i + 1] && b1[j] == b[j + 1]);
            }
        }
        law_sorted_classes_determine_order(a1, b1, t);
        assert(a =~= b) by {
            assert forall|i: int| 0 <= i < a.len() implies a[i] == b[i] by {
                if i > 0 {
                    assert(a[i] == a1[i - 1] && b[i] == b1[i - 1]);
                }
            }
        }
    }
}

/// Whether the entity `x` of `t` is the player character or not, sees the player character
/// (`visible`), and has an idle AI: the entities whose AI checking for activation wakes.
pub open spec fn idle_watcher(t: Seq<Option<EntityState>>, x: usize, visible: Seq<bool>) -> bool {
    &&& x < t.len()
    &&& t[x as int] is Some
    &&& !t[x as int].unwrap().is_pc
    &&& !t[x as int].unwrap().ai_active
    &&& x < visible.len()
    &&& visible[x as int]
}

/// Checking for AI activation wakes only idle AIs. It gives actions exactly when some entity
/// of the order is not the player character, sees it and has an idle AI; when there is none,
/// in particular when every entity that sees the player character already has an active AI,
/// it gives no actions and leaves the order, the turn mode and the entities as they were. An
/// entity whose AI is already active is never changed, and an entity whose AI is woken differs
/// only in that its AI is now active. Here `q`, `mode` and `t` are the order, the turn mode and
/// the entities before the call, `q2`, `mode2`, `t2` and `actions` what `check_ai_activation`
/// leaves and gives.
pub proof fn law_ai_activation_wakes_only_idle(
    q: Seq<usize>,
    mode: bool,
    t: Seq<Option<EntityState>>,
    visible: Seq<bool>,
    q2: Seq<usize>,
    mode2: bool,
    t2: Seq<Option<EntityState>>,
    actions: Seq<TurnAction>,
)
    requires
        all_live(q, t),
        visible.len() == t.len(),
        t.len() <= usize::MAX,
        t2 == wake_table(q, t, visible),
        wakes_any(q, t, visible) ==> mode2 && q2 == activated(q, t2) && actions == set_active_actions(
            q,
            t2,
            mode,
            true,
        ).push(TurnAction::InitTurn(q2[0])),
        !wakes_any(q, t, visible) ==> mode2 == mode && q2 == q && actions == Seq::<TurnAction>::empty(),
    ensures
        (actions.len() > 0) == (exists|i: int| 0 <= i < q.len() && idle_watcher(t, #[trigger] q[i], visible)),
        !(exists|i: int| 0 <= i < q.len() && idle_watcher(t, #[trigger] q[i], visible)) ==> actions
            == Seq::<TurnAction>::empty() && q2 == q && mode2 == mode && t2 == t,
        (exists|i: int| 0 <= i < q.len() && idle_watcher(t, #[trigger] q[i], visible)) ==> mode2
            && actions.last() == TurnAction::InitTurn(q2[0]),
        forall|i: int|
            0 <= i < q.len() && idle_watcher(t, #[trigger] q[i], visible) ==> t2[q[i] as int] == Some(
                EntityState { ai_active: true, ..t[q[i] as int].unwrap() },
            ),
        t2.len() == t.len(),
        forall|x: int|
            0 <= x < t.len() && (#[trigger] t[x]) is Some && t[x].unwrap().ai_active ==> t2[x] == t[x],
        forall|x: int|
            0 <= x < t.len() && t2[x] != t[x] ==> (#[trigger] t[x]) is Some && !t[x].unwrap().ai_active
                && t2[x] == Some(EntityState { ai_active: true, ..t[x].unwrap() }),
{
    assert forall|x: int|
        0 <= x < t.len() && t2[x] != t[x] implies (#[trigger] t[x]) is Some && !t[x].unwrap().ai_active
            && t2[x] == Some(EntityState { ai_active: true, ..t[x].unwrap() }) by {
        assert(x as usize as int == x);
        assert(wakes(t, x as usize, visible));
    }
    assert forall|i: int|
        0 <= i < q.len() && idle_watcher(t, #[trigger] q[i], visible) implies t2[q[i] as int] == Some(
            EntityState { ai_active: true, ..t[q[i] as int].unwrap() },
        ) by {
        assert(wakes(t, q[i], visible));
        assert(in_queue_prefix(q, q.len() as int, q[i]));
        assert(q[i] as int as usize == q[i]);
    }
    if wakes_any(q, t, visible) {
        let j = choose|j: int| 0 <= j < q.len() && wakes(t, #[trigger] q[j], visible);
        assert(idle_watcher(t, q[j], visible));
        assert(actions.len() > 0);
    } else {
        assert forall|i: int| 0 <= i < q.len() implies !idle_watcher(t, #[trigger] q[i], visible) by {
            if idle_watcher(t, q[i], visible) {
                assert(wakes(t, q[i], visible));
            }
        }
        assert forall|x: int| 0 <= x < t.len() implies t2[x] == t[x] by {
            if in_queue_prefix(q, q.len() as int, x as usize) && wakes(t, x as usize, visible) {
                let j = choose|j: int| 0 <= j < q.len() && q[j] == x as usize;
                assert(wakes(t, q[j], visible));
            }
        }
        assert(t2 =~= t);
    }
}

/// Taking an entity out of the order keeps turn mode as long as some entity left in the order,
/// the one at its front included, has an active AI, and then only tells the listeners; when no
/// entity left has an active AI, turn mode ends. The entity is no longer in the order. Here `q`
/// and `mode` are the order and the turn mode before the call, `q2`, `mode2` and `actions` what
/// `remove` leaves and gives.
pub proof fn law_remove_keeps_mode_while_ai_left(
    q: Seq<usize>,
    mode: bool,
    t: Seq<Option<EntityState>>,
    e: usize,
    q2: Seq<usize>,
    mode2: bool,
    actions: Seq<TurnAction>,
)
    requires
        q2 == without(q, e),
        no_ai_active(q2, t) ==> mode2 == false && actions == set_active_actions(q2, t, mode, false),
        !no_ai_active(q2, t) ==> mode2 == mode && actions == seq![TurnAction::Notify],
    ensures
        (exists|i: int|
            0 <= i < q2.len() && (#[trigger] q2[i]) < t.len() && t[q2[i] as int] is Some && t[q2[i] as int].unwrap().ai_active)
            ==> mode2 == mode && actions == seq![TurnAction::Notify],
        !(exists|i: int|
            0 <= i < q2.len() && (#[trigger] q2[i]) < t.len() && t[q2[i] as int] is Some && t[q2[i] as int].unwrap().ai_active)
            ==> !mode2 && actions.last() == TurnAction::Notify,
        forall|i: int| 0 <= i < q2.len() ==> #[trigger] q2[i] != e,
{
    law_remove_takes_entity_out(q, e);
    if exists|i: int|
        0 <= i < q2.len() && (#[trigger] q2[i]) < t.len() && t[q2[i] as int] is Some && t[q2[i] as int].unwrap().ai_active {
        let i = choose|i: int|
            0 <= i < q2.len() && (#[trigger] q2[i]) < t.len() && t[q2[i] as int] is Some && t[q2[i] as int].unwrap().ai_active;
        assert(ai_active_at(t, q2[i]));
    } else {
        assert forall|i: int| 0 <= i < q2.len() implies !ai_active_at(t, #[trigger] q2[i]) by {}
    }
}

} // verus!
