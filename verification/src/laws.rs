//! What holds of the game whatever the store decides: laws that relate the
//! systems to one another, proved from what each system promises.

use vstd::prelude::*;
use crate::components::{EntityId, GridVec, HeadDirection, Input, Position, Tail};
use crate::events::Event;
use crate::seqs::{lemma_filter_all, lemma_filter_map_distinct, lemma_filter_none};
use crate::store::{holders, holders2, lists_exactly, Components, Entities};
use crate::systems::collision::{
    collision_with, detection, detection_by, is_head, next_cell, occupants, outcome, resolution,
};
use crate::systems::growth::{
    fresh, grown, growth_behind, growth_requested, growth_requested_behind, growths, is_segment,
    is_tail_end, lemma_grown_dom, meal_of, meals, next_segment, segment_for, tails_spawned,
    tails_spawned_as, wants_growth,
};
use crate::systems::lifecycle::{initial_head, initial_tail, snake_created, snake_created_as};
use crate::systems::movement::{followable, moved, steer, steered, tail_followed};
use crate::systems::lifecycle::{fed_at, in_field, is_over};
use crate::systems::movement::synced;
use crate::systems::score::{scores, tally};
use crate::systems::tick::{advanced, digested, Frame, resolved, ticked, ticked_along, Trace};
use crate::systems::{edible, well_formed};
use crate::invariants::{
    lemma_followed_shape, lemma_shape_chain, lemma_shape_keeps, lemma_steered_shape,
    lemma_synced_shape, lemma_wf_followable,
};

verus! {

/// Whether the direction of an entity is the exact reverse of its velocity.
pub open spec fn reversed(c: Components) -> bool {
    c.head_direction.unwrap().0.unit().is_negation_of(c.velocity.unwrap().0)
}

/// A head never turns round on the spot: the direction it takes from the
/// input is not the reverse of its velocity, provided the direction it had
/// was not. Direction intake leaves the velocity as it was.
pub proof fn law_no_reversal(c: Components, input: Input)
    requires
        c.snake.is_some(),
        c.velocity.is_some(),
        c.head_direction.is_some(),
        !reversed(c),
    ensures
        steered(c, input).velocity == c.velocity,
        !reversed(steered(c, input)),
{
}

/// Only heads move: the position update leaves every entity that is no
/// head exactly as it was, and changes the velocity of none.
pub proof fn law_only_heads_move(m: Entities, id: EntityId)
    requires
        m.dom().contains(id),
    ensures
        m.map_values(|c: Components| moved(c))[id].velocity == m[id].velocity,
        m[id].snake.is_none() ==> m.map_values(|c: Components| moved(c))[id] == m[id],
{
}

/// Tail-follow is one step behind: after the tail followed and the heads
/// moved, a segment that is no head stands where the entity ahead of it
/// stood before.
pub proof fn law_tail_trails_by_one_step(m: Entities, id: EntityId)
    requires
        followable(m),
        m.dom().contains(id),
        m[id].tail.is_some(),
        m[id].position.is_some(),
        m[id].snake.is_none(),
    ensures
        tail_followed(m).map_values(|c: Components| moved(c))[id].position
            == m[m[id].tail.unwrap().ahead].position,
{
}

/// After the tail followed and the heads moved, a head that follows nobody
/// stands one step further along its velocity.
pub proof fn law_head_moves_one_step(m: Entities, id: EntityId)
    requires
        followable(m),
        m.dom().contains(id),
        m[id].snake.is_some(),
        m[id].tail.is_none(),
        m[id].position.is_some(),
        m[id].velocity.is_some(),
    ensures
        tail_followed(m).map_values(|c: Components| moved(c))[id].position == Some(
            Position(next_cell(m[id])),
        ),
{
}

/// The end of the game leaves the score at zero, unless a meal follows it
/// in the queue.
pub proof fn law_game_over_zeroes_score(events: Seq<Event>, start: int, at: int)
    requires
        0 <= at < events.len(),
        events[at] is GameOver,
        forall|j: int| at < j < events.len() ==> !(events[j] is SnakeEatFood),
    ensures
        tally(events, start) == 0,
    decreases events.len(),
{
    if at < events.len() - 1 {
        let front = events.drop_last();
        assert(front[at] == events[at]);
        assert forall|j: int| at < j < front.len() implies !(front[j] is SnakeEatFood) by {
            assert(front[j] == events[j]);
        }
        law_game_over_zeroes_score(front, start, at);
        assert(!(events[events.len() - 1] is SnakeEatFood));
    }
}

/// A new game holds two entities: the head at the origin, and its first
/// segment, which follows the head.
pub proof fn law_new_game_is_head_and_tail(after: Entities)
    requires
        snake_created(Entities::empty(), after),
    ensures
        after.dom().finite(),
        after.dom().len() == 2,
        exists|head: EntityId, tail: EntityId|
            head != tail && #[trigger] after.dom().contains(head) && #[trigger] after.dom().contains(
                tail,
            ) && after[head] == initial_head() && after[tail] == initial_tail(head),
{
    let (head, tail) = choose|head: EntityId, tail: EntityId| #[trigger]
        snake_created_as(Entities::empty(), after, head, tail);
    assert(after.dom() =~= Set::<EntityId>::empty().insert(head).insert(tail));
    assert(after.dom().contains(head) && after.dom().contains(tail));
}

/// Whether `head` is the only head of the store.
pub open spec fn only_head(m: Entities, head: EntityId) -> bool {
    is_head(m, head) && forall|other: EntityId| is_head(m, other) ==> other == head
}

/// Food on the cell that the head enters next is eaten: once detection
/// ran on an empty queue and resolution after it, exactly one event of the
/// queue says that the food was eaten, and the removal of eaten food takes
/// it out of the store.
pub proof fn law_food_ahead_is_eaten(
    m: Entities,
    hits: Seq<Event>,
    head: EntityId,
    food: EntityId,
)
    requires
        only_head(m, head),
        occupants(m, next_cell(m[head])).contains(food),
        edible(m[food]),
        detection(m, Seq::empty(), hits),
    ensures
        exists|at: int|
            0 <= at < resolution(hits, m).len() && #[trigger] resolution(hits, m)[at]
                == (Event::SnakeEatFood { entity: food, pos: m[food].position.unwrap().0 })
                && forall|other: int|
                0 <= other < resolution(hits, m).len() && meal_of(
                    #[trigger] resolution(hits, m)[other],
                ) == Some(food) ==> other == at,
        !m.remove_keys(meals(resolution(hits, m)).to_set()).dom().contains(food),
{
    let out = resolution(hits, m);
    assert(is_head(m, head));
    let (source, targets) = choose|source: EntityId, targets: Seq<EntityId>| #[trigger]
        detection_by(m, Seq::empty(), hits, source, targets);
    assert(source == head);
    assert(hits =~= targets.map_values(|t: EntityId| collision_with(m, head, t)));
    assert forall|i: int| 0 <= i < hits.len() implies (#[trigger] hits[i]) is Collision by {}
    lemma_filter_all(hits, |e: Event| e is Collision);
    lemma_filter_none(hits, |e: Event| !(e is Collision));
    assert(out =~= hits.map_values(|e: Event| outcome(e, m)));
    assert(targets.contains(food));
    let at = choose|at: int| 0 <= at < targets.len() && targets[at] == food;
    assert(out[at] == (Event::SnakeEatFood { entity: food, pos: m[food].position.unwrap().0 }));
    assert forall|other: int|
        0 <= other < out.len() && meal_of(#[trigger] out[other]) == Some(food) implies other
        == at by {
        assert(hits[other] == collision_with(m, head, targets[other]));
        assert(targets[other] == food);
    }
    let pick = |e: Event| meal_of(e);
    assert forall|i: int, j: int|
        0 <= i < j < out.len() && pick(out[i]).is_some() implies #[trigger] pick(out[i])
        != #[trigger] pick(out[j]) by {
        assert(hits[i] == collision_with(m, head, targets[i]));
        assert(hits[j] == collision_with(m, head, targets[j]));
        assert(targets[i] != targets[j]);
    }
    lemma_filter_map_distinct(out, pick);
    assert(pick(out[at]) == Some(food));
    assert(meals(out).contains(food));
}

/// The snake grows by one segment for each meal. Where the queue held no
/// request for growth before the meals were counted, and the store has a
/// segment to grow behind, the growth that follows adds exactly one segment
/// for each meal; each new segment follows an end of the tail, starts where
/// that end stands, and bears the number after the highest; and nothing
/// that was in the store changes.
pub proof fn law_one_segment_per_meal(
    m: Entities,
    events: Seq<Event>,
    requests: Seq<Event>,
    after: Entities,
)
    requires
        m.dom().finite(),
        exists|id: EntityId| is_segment(m, id),
        growths(events) == Seq::<Event>::empty(),
        growth_requested(m, events, requests),
        tails_spawned(m, requests, after),
    ensures
        after.dom().finite(),
        holders2::<Tail, Position>(after).len() == holders2::<Tail, Position>(m).len() + meals(
            events,
        ).len(),
        forall|id: EntityId| #[trigger]
            m.dom().contains(id) ==> after.dom().contains(id) && after[id] == m[id],
        forall|id: EntityId|
            after.dom().contains(id) && !m.dom().contains(id) ==> is_segment(after, id)
                && is_tail_end(m, (#[trigger] after[id]).tail.unwrap().ahead)
                && after[id].position == m[after[id].tail.unwrap().ahead].position
                && after[id].tail.unwrap().segment == next_segment(
                m[after[id].tail.unwrap().ahead].tail.unwrap().segment,
            ),
{
    let ids = choose|ids: Seq<EntityId>| #[trigger] tails_spawned_as(m, requests, after, ids);
    lemma_grown_dom(m, ids, growths(requests));
    let segments = holders2::<Tail, Position>(m);
    assert(segments.subset_of(m.dom()));
    vstd::set_lib::lemma_len_subset(segments, m.dom());
    if meals(events).len() == 0 {
        assert(requests == events);
        assert(ids.len() == 0);
        assert(after == m);
    } else {
        let end = choose|end: EntityId| #[trigger] growth_requested_behind(m, events, requests, end);
        lemma_growth_behind(m, events, requests, after, ids, end);
        let born = segment_for(growth_behind(m, end));
        assert(is_tail_end(m, end));
        assert forall|id: EntityId|
            after.dom().contains(id) && !m.dom().contains(id) implies is_segment(after, id)
            && is_tail_end(m, (#[trigger] after[id]).tail.unwrap().ahead) && after[id].position
            == m[after[id].tail.unwrap().ahead].position && after[id].tail.unwrap().segment
            == next_segment(m[after[id].tail.unwrap().ahead].tail.unwrap().segment) by {
            assert(after[id] == born);
        }
    }
}

/// Whether `after` is what `m` grows into when `events`, a queue without
/// requests for growth that holds `n` meals, is followed by the request for
/// growth, which leaves `requests`, and by the growth itself.
pub open spec fn grew_through(
    m: Entities,
    after: Entities,
    n: nat,
    events: Seq<Event>,
    requests: Seq<Event>,
) -> bool {
    &&& growths(events) == Seq::<Event>::empty()
    &&& meals(events).len() == n
    &&& growth_requested(m, events, requests)
    &&& tails_spawned(m, requests, after)
}

/// Whether `after` is what `m` grows into after `n` meals.
pub open spec fn grew(m: Entities, after: Entities, n: nat) -> bool {
    exists|events: Seq<Event>, requests: Seq<Event>| #[trigger]
        grew_through(m, after, n, events, requests)
}

/// The sum of a sequence of numbers.
pub open spec fn total(counts: Seq<nat>) -> nat
    decreases counts.len(),
{
    if counts.len() == 0 {
        0
    } else {
        total(counts.drop_last()) + counts.last()
    }
}

/// Over any number of rounds the tail is as much longer as there were
/// meals: where each store of a sequence grows into the next after so many
/// meals, and the first has a segment to grow behind, the last holds as many
/// segments more than the first as there were meals in all.
pub proof fn law_growth_adds_up(stores: Seq<Entities>, counts: Seq<nat>)
    requires
        stores.len() == counts.len() + 1,
        stores[0].dom().finite(),
        exists|id: EntityId| is_segment(stores[0], id),
        forall|k: int|
            0 <= k < counts.len() ==> grew(#[trigger] stores[k], stores[k + 1], counts[k]),
    ensures
        stores.last().dom().finite(),
        exists|id: EntityId| is_segment(stores.last(), id),
        holders2::<Tail, Position>(stores.last()).len() == holders2::<Tail, Position>(
            stores[0],
        ).len() + total(counts),
    decreases counts.len(),
{
    if counts.len() > 0 {
        let rounds = counts.len() as int;
        let sooner = stores.drop_last();
        let fewer = counts.drop_last();
        assert(sooner[0] == stores[0]);
        assert forall|k: int| 0 <= k < fewer.len() implies grew(
            #[trigger] sooner[k],
            sooner[k + 1],
            fewer[k],
        ) by {
            assert(grew(stores[k], stores[k + 1], counts[k]));
        }
        law_growth_adds_up(sooner, fewer);
        let m = stores[rounds - 1];
        let after = stores[rounds];
        assert(sooner.last() == m);
        assert(grew(stores[rounds - 1], stores[rounds - 1 + 1], counts[rounds - 1]));
        let (events, requests) = choose|events: Seq<Event>, requests: Seq<Event>| #[trigger]
            grew_through(m, after, counts[rounds - 1], events, requests);
        law_one_segment_per_meal(m, events, requests, after);
        let kept = choose|id: EntityId| is_segment(m, id);
        assert(m.dom().contains(kept));
        assert(is_segment(after, kept));
    }
}

/// Whether `ids[k]` is the segment with the number `k + 1` of a chain
/// behind `head`: it has a position, and follows `head` where it is the
/// first, the segment before it otherwise.
pub open spec fn linked(m: Entities, head: EntityId, ids: Seq<EntityId>, k: int) -> bool {
    &&& m[ids[k]].position.is_some()
    &&& m[ids[k]].tail == Some(
        Tail {
            segment: (k + 1) as u32,
            ahead: if k == 0 {
                head
            } else {
                ids[k - 1]
            },
        },
    )
}

/// Whether the segments of the store form one chain behind `head`, which
/// `ids` lists from the head outwards: they are all the entities that
/// carry a tail, each has a position, the first follows `head`, every other
/// one follows the one before it, and they are numbered from 1 upwards.
pub open spec fn chained(m: Entities, head: EntityId, ids: Seq<EntityId>) -> bool {
    &&& ids.len() <= u32::MAX
    &&& lists_exactly(ids, holders::<Tail>(m))
    &&& forall|k: int| 0 <= k < ids.len() ==> #[trigger] linked(m, head, ids, k)
}

/// The snake a game starts with is a chain of one segment.
pub proof fn law_new_game_is_a_chain(
    before: Entities,
    after: Entities,
    head: EntityId,
    tail: EntityId,
)
    requires
        snake_created_as(before, after, head, tail),
        forall|id: EntityId| before.dom().contains(id) ==> before[id].tail.is_none(),
    ensures
        chained(after, head, seq![tail]),
{
    let ids = seq![tail];
    assert(ids[0] == tail);
    assert forall|id: EntityId| ids.contains(id) <==> holders::<Tail>(after).contains(id) by {
        if holders::<Tail>(after).contains(id) {
            if id != tail && id != head {
                assert(before.dom().contains(id));
            }
            assert(id == tail);
        }
    }
    assert(linked(after, head, ids, 0));
}

/// A chain counts and numbers its segments: the store holds as many
/// entities with a tail as the chain is long, and each bears a number from
/// 1 to that length, the number of its place in the chain.
pub proof fn law_chain_is_numbered(m: Entities, head: EntityId, ids: Seq<EntityId>)
    requires
        chained(m, head, ids),
    ensures
        holders::<Tail>(m).finite(),
        holders::<Tail>(m).len() == ids.len(),
        forall|k: int| 0 <= k < ids.len() ==> m[#[trigger] ids[k]].tail.unwrap().segment == k + 1,
        forall|id: EntityId| #[trigger]
            holders::<Tail>(m).contains(id) ==> 1 <= m[id].tail.unwrap().segment <= ids.len(),
{
    ids.unique_seq_to_set();
    assert(ids.to_set() =~= holders::<Tail>(m));
    vstd::seq_lib::seq_to_set_is_finite(ids);
    assert forall|k: int| 0 <= k < ids.len() implies m[#[trigger] ids[k]].tail.unwrap().segment
        == k + 1 by {
        assert(linked(m, head, ids, k));
    }
    assert forall|id: EntityId| #[trigger] holders::<Tail>(m).contains(id) implies 1
        <= m[id].tail.unwrap().segment <= ids.len() by {
        assert(ids.contains(id));
        let k = choose|k: int| 0 <= k < ids.len() && ids[k] == id;
        assert(linked(m, head, ids, k));
    }
}

/// The end of a chain is its last segment.
proof fn lemma_chain_end(m: Entities, head: EntityId, ids: Seq<EntityId>, end: EntityId)
    requires
        chained(m, head, ids),
        1 <= ids.len(),
        is_tail_end(m, end),
    ensures
        end == ids.last(),
{
    let last = ids.last();
    let top = ids.len() - 1;
    assert(ids.contains(end));
    let j = choose|j: int| 0 <= j < ids.len() && ids[j] == end;
    assert(linked(m, head, ids, j));
    assert(linked(m, head, ids, top));
    assert(ids.contains(ids[top]));
    assert(is_segment(m, last));
}

/// After one meal, the store holds one entity more: the segment that was
/// asked for behind `end`.
proof fn lemma_one_meal_one_segment(
    m: Entities,
    after: Entities,
    events: Seq<Event>,
    requests: Seq<Event>,
    end: EntityId,
) -> (born: EntityId)
    requires
        m.dom().finite(),
        grew_through(m, after, 1, events, requests),
        growth_requested_behind(m, events, requests, end),
    ensures
        !m.dom().contains(born),
        after == m.insert(born, segment_for(growth_behind(m, end))),
{
    let added = Seq::new(meals(events).len(), |i: int| growth_behind(m, end));
    Seq::filter_distributes_over_add(events, added, wants_growth());
    lemma_filter_all(added, wants_growth());
    let wanted = growths(requests);
    assert(wanted =~= added);
    let fresh_ids = choose|fresh_ids: Seq<EntityId>| #[trigger]
        tails_spawned_as(m, requests, after, fresh_ids);
    let born = fresh_ids[0];
    assert(after == m.insert(born, segment_for(wanted[0]))) by {
        reveal_with_fuel(grown, 2);
        assert(fresh_ids.drop_last() =~= Seq::<EntityId>::empty());
        assert(fresh_ids.last() == born);
    }
    born
}

/// A new segment with the next number behind the last of a chain makes the
/// chain one longer.
proof fn lemma_chain_push(
    m: Entities,
    head: EntityId,
    ids: Seq<EntityId>,
    born: EntityId,
    c: Components,
)
    requires
        chained(m, head, ids),
        1 <= ids.len() < u32::MAX,
        !m.dom().contains(born),
        c.position.is_some(),
        c.tail == Some(Tail { segment: (ids.len() + 1) as u32, ahead: ids.last() }),
    ensures
        chained(m.insert(born, c), head, ids.push(born)),
{
    let after = m.insert(born, c);
    let longer = ids.push(born);
    assert(!ids.contains(born)) by {
        if ids.contains(born) {
            assert(holders::<Tail>(m).contains(born));
        }
    }
    assert forall|id: EntityId| longer.contains(id) <==> holders::<Tail>(after).contains(id) by {
        if longer.contains(id) {
            let j = choose|j: int| 0 <= j < longer.len() && longer[j] == id;
            if j < ids.len() {
                assert(ids.contains(ids[j]));
            }
        }
        if holders::<Tail>(after).contains(id) {
            if id == born {
                assert(longer[ids.len() as int] == born);
            } else {
                assert(holders::<Tail>(m).contains(id));
                assert(ids.contains(id));
                let j = choose|j: int| 0 <= j < ids.len() && ids[j] == id;
                assert(longer[j] == id);
            }
        }
    }
    assert forall|a: int, b: int|
        0 <= a < longer.len() && 0 <= b < longer.len() && a != b implies longer[a] != longer[b] by {
        if a < ids.len() {
            assert(ids.contains(ids[a]));
        }
        if b < ids.len() {
            assert(ids.contains(ids[b]));
        }
    }
    assert forall|k: int| 0 <= k < longer.len() implies #[trigger] linked(
        after,
        head,
        longer,
        k,
    ) by {
        if k < ids.len() {
            assert(linked(m, head, ids, k));
            assert(ids.contains(ids[k]));
        }
    }
}

/// A chain grows at its end: after one meal, the store holds the chain it
/// held and one new segment, which follows the last of the chain, stands
/// where it stands, and bears the next number. Nothing else changes.
pub proof fn law_chain_grows(m: Entities, head: EntityId, ids: Seq<EntityId>, after: Entities)
    requires
        m.dom().finite(),
        chained(m, head, ids),
        1 <= ids.len() < u32::MAX,
        grew(m, after, 1),
    ensures
        after.dom().finite(),
        forall|id: EntityId| #[trigger]
            m.dom().contains(id) ==> after.dom().contains(id) && after[id] == m[id],
        exists|born: EntityId|
            !m.dom().contains(born) && after.dom() == m.dom().insert(born) && after[born].position
                == m[ids.last()].position && #[trigger] chained(after, head, ids.push(born)),
{
    let (events, requests) = choose|events: Seq<Event>, requests: Seq<Event>| #[trigger]
        grew_through(m, after, 1, events, requests);
    let top = ids.len() - 1;
    assert(ids.contains(ids[top]));
    assert(linked(m, head, ids, top));
    assert(is_segment(m, ids.last()));
    let end = choose|end: EntityId| #[trigger] growth_requested_behind(m, events, requests, end);
    lemma_chain_end(m, head, ids, end);
    let born = lemma_one_meal_one_segment(m, after, events, requests, end);
    let c = segment_for(growth_behind(m, end));
    lemma_chain_push(m, head, ids, born, c);
    assert(after.dom() =~= m.dom().insert(born));
    assert(chained(after, head, ids.push(born)));
}

/// Over any number of rounds of one meal each, the snake stays one chain:
/// where the first store of a sequence holds a chain of one segment behind
/// `head`, and each store grows into the next after one meal, the last
/// store holds a chain of as many segments as there are stores, numbered
/// from 1 upwards, each behind the one before it.
pub proof fn law_chain_over_rounds(stores: Seq<Entities>, head: EntityId, first: EntityId)
    requires
        1 <= stores.len() < u32::MAX,
        stores[0].dom().finite(),
        chained(stores[0], head, seq![first]),
        forall|k: int|
            0 <= k < stores.len() - 1 ==> grew(#[trigger] stores[k], stores[k + 1], 1),
    ensures
        stores.last().dom().finite(),
        exists|ids: Seq<EntityId>|
            ids.len() == stores.len() && ids[0] == first && #[trigger] chained(
                stores.last(),
                head,
                ids,
            ),
    decreases stores.len(),
{
    if stores.len() == 1 {
        let ids = seq![first];
        assert(ids.len() == 1 && ids[0] == first);
        assert(chained(stores.last(), head, ids));
    } else {
        let rounds = stores.len() - 1;
        let sooner = stores.drop_last();
        assert(sooner[0] == stores[0]);
        assert forall|k: int| 0 <= k < sooner.len() - 1 implies grew(
            #[trigger] sooner[k],
            sooner[k + 1],
            1,
        ) by {
            assert(grew(stores[k], stores[k + 1], 1));
        }
        law_chain_over_rounds(sooner, head, first);
        let m = stores[rounds - 1];
        assert(sooner.last() == m);
        let ids = choose|ids: Seq<EntityId>|
            ids.len() == sooner.len() && ids[0] == first && #[trigger] chained(m, head, ids);
        assert(grew(stores[rounds - 1], stores[rounds - 1 + 1], 1));
        law_chain_grows(m, head, ids, stores[rounds]);
        let born = choose|born: EntityId|
            !m.dom().contains(born) && stores[rounds].dom() == m.dom().insert(born)
                && stores[rounds][born].position == m[ids.last()].position && #[trigger] chained(
                stores[rounds],
                head,
                ids.push(born),
            );
        let longer = ids.push(born);
        assert(longer.len() == stores.len() && longer[0] == first);
        assert(chained(stores.last(), head, longer));
    }
}

/// The growth law, for requests that all ask to grow behind `end` and for
/// new segments under the handles `ids`.
proof fn lemma_growth_behind(
    m: Entities,
    events: Seq<Event>,
    requests: Seq<Event>,
    after: Entities,
    ids: Seq<EntityId>,
    end: EntityId,
)
    requires
        m.dom().finite(),
        growths(events) == Seq::<Event>::empty(),
        growth_requested_behind(m, events, requests, end),
        tails_spawned_as(m, requests, after, ids),
    ensures
        holders2::<Tail, Position>(after).len() == holders2::<Tail, Position>(m).len() + meals(
            events,
        ).len(),
        forall|id: EntityId| #[trigger]
            m.dom().contains(id) ==> after.dom().contains(id) && after[id] == m[id],
        forall|id: EntityId|
            after.dom().contains(id) && !m.dom().contains(id) ==> (#[trigger] after[id])
                == segment_for(growth_behind(m, end)),
{
    let wanted = growths(requests);
    let added = Seq::new(meals(events).len(), |i: int| growth_behind(m, end));
    Seq::filter_distributes_over_add(events, added, wants_growth());
    lemma_filter_all(added, wants_growth());
    assert(wanted =~= added);
    lemma_grown_segments(m, ids, wanted, end);
}

/// Growing behind `end` by `ids` adds these handles as segments behind
/// `end`, and changes nothing else.
pub proof fn lemma_grown_segments(
    m: Entities,
    ids: Seq<EntityId>,
    requests: Seq<Event>,
    end: EntityId,
)
    requires
        m.dom().finite(),
        fresh(m, ids),
        ids.len() <= requests.len(),
        forall|i: int| 0 <= i < requests.len() ==> #[trigger] requests[i] == growth_behind(m, end),
    ensures
        holders2::<Tail, Position>(m).finite(),
        holders2::<Tail, Position>(grown(m, ids, requests)) == holders2::<Tail, Position>(m).union(
            ids.to_set(),
        ),
        holders2::<Tail, Position>(grown(m, ids, requests)).len() == holders2::<Tail, Position>(
            m,
        ).len() + ids.len(),
        forall|id: EntityId| #[trigger]
            m.dom().contains(id) ==> grown(m, ids, requests).dom().contains(id) && grown(
                m,
                ids,
                requests,
            )[id] == m[id],
        forall|id: EntityId|
            grown(m, ids, requests).dom().contains(id) && !m.dom().contains(id) ==> (#[trigger] grown(
                m,
                ids,
                requests,
            )[id]) == segment_for(growth_behind(m, end)),
    decreases ids.len(),
{
    assert(holders2::<Tail, Position>(m).subset_of(m.dom()));
    vstd::set_lib::lemma_len_subset(holders2::<Tail, Position>(m), m.dom());
    if ids.len() == 0 {
        assert(holders2::<Tail, Position>(m).union(ids.to_set()) =~= holders2::<Tail, Position>(m));
    } else {
        let front = ids.drop_last();
        let id = ids.last();
        let before = grown(m, front, requests);
        lemma_grown_segments(m, front, requests, end);
        lemma_grown_dom(m, front, requests);
        assert(ids =~= front.push(id));
        front.lemma_push_to_set_commute(id);
        assert(!m.dom().contains(ids[ids.len() - 1]));
        assert(!front.to_set().contains(id)) by {
            if front.contains(id) {
                let j = choose|j: int| 0 <= j < front.len() && front[j] == id;
                assert(ids[j] == ids[ids.len() - 1]);
            }
        }
        let after = grown(m, ids, requests);
        assert(after == before.insert(id, segment_for(requests[ids.len() - 1])));
        assert(holders2::<Tail, Position>(after) =~= holders2::<Tail, Position>(before).insert(id));
        assert(holders2::<Tail, Position>(after) =~= holders2::<Tail, Position>(m).union(
            ids.to_set(),
        ));
        assert(!holders2::<Tail, Position>(before).contains(id));
        vstd::set_lib::lemma_len_union(holders2::<Tail, Position>(m), front.to_set());
    }
}

/// Events that do not change the score, appended to a queue, leave its
/// tally as it was.
pub proof fn lemma_tally_ignores(events: Seq<Event>, more: Seq<Event>, start: int)
    requires
        forall|i: int| 0 <= i < more.len() ==> !scores(#[trigger] more[i]),
    ensures
        tally(events + more, start) == tally(events, start),
    decreases more.len(),
{
    if more.len() == 0 {
        assert(events + more =~= events);
    } else {
        let front = more.drop_last();
        assert forall|i: int| 0 <= i < front.len() implies !scores(#[trigger] front[i]) by {
            assert(front[i] == more[i]);
        }
        lemma_tally_ignores(events, front, start);
        assert((events + more).drop_last() =~= events + front);
        assert((events + more).last() == more[more.len() - 1]);
    }
}

/// The score after a tick is the tally of the queue that the tick leaves.
pub proof fn law_tick_score_is_tally(
    pre: Frame,
    input: Input,
    move_due: bool,
    food_due: bool,
    post: Frame,
    over: bool,
)
    requires
        ticked(pre, input, move_due, food_due, post, over),
    ensures
        post.score == tally(post.events, pre.score),
{
    let trace = choose|trace: Trace| #[trigger]
        ticked_along(pre, input, move_due, food_due, trace, post, over);
    let moved_on = advanced(pre.entities, input, move_due);
    let outcomes = resolved(trace.hits, moved_on);
    let rewritten = digested(moved_on, outcomes, pre.score);
    if meals(outcomes).len() == 0 || forall|id: EntityId| !is_segment(rewritten, id) {
        assert(post.events == outcomes);
    } else {
        let end = choose|end: EntityId| #[trigger]
            growth_requested_behind(rewritten, outcomes, post.events, end);
        let added = Seq::new(meals(outcomes).len(), |i: int| growth_behind(rewritten, end));
        lemma_tally_ignores(outcomes, added, pre.score);
    }
}

/// A tick in which the game ends leaves a new game: where no food is due,
/// the store holds the new snake and nothing else. The score is zero,
/// unless the queue of the tick holds a meal after the end of the game.
pub proof fn law_tick_restarts(
    pre: Frame,
    input: Input,
    move_due: bool,
    food_due: bool,
    post: Frame,
    over: bool,
)
    requires
        ticked(pre, input, move_due, food_due, post, over),
        over,
    ensures
        is_over(post.events),
        !food_due ==> snake_created(Entities::empty(), post.entities) && post.entities.dom().len()
            == 2,
        forall|at: int|
            0 <= at < post.events.len() && #[trigger] post.events[at] is GameOver && (forall|j: int|
                at < j < post.events.len() ==> !(post.events[j] is SnakeEatFood)) ==> post.score
                == 0,
{
    let trace = choose|trace: Trace| #[trigger]
        ticked_along(pre, input, move_due, food_due, trace, post, over);
    law_tick_score_is_tally(pre, input, move_due, food_due, post, over);
    if !food_due {
        law_new_game_is_head_and_tail(post.entities);
    }
    assert forall|at: int|
        0 <= at < post.events.len() && #[trigger] post.events[at] is GameOver && (forall|j: int|
            at < j < post.events.len() ==> !(post.events[j] is SnakeEatFood)) implies post.score
        == 0 by {
        law_game_over_zeroes_score(post.events, pre.score, at);
    }
}

/// What moving on does to one entity of a well-formed store: it takes the
/// direction that the input gives it and the velocity of that direction.
/// Where a step is due, a segment that is no head then stands where the
/// entity ahead of it stood, a head that follows nobody stands one step
/// further, and what is neither stays where it stood. Where no step is due,
/// everything stays where it stood.
pub proof fn law_advance(m: Entities, input: Input, move_due: bool, id: EntityId)
    requires
        well_formed(m),
        m.dom().contains(id),
    ensures
        advanced(m, input, move_due).dom() == m.dom(),
        advanced(m, input, move_due)[id].head_direction == steered(m[id], input).head_direction,
        advanced(m, input, move_due)[id].velocity == synced(steered(m[id], input)).velocity,
        !move_due ==> advanced(m, input, move_due)[id].position == m[id].position,
        move_due && m[id].tail.is_some() && m[id].position.is_some() && m[id].snake.is_none()
            ==> advanced(m, input, move_due)[id].position
            == m[m[id].tail.unwrap().ahead].position,
        move_due && m[id].tail.is_none() && m[id].snake.is_none() ==> advanced(
            m,
            input,
            move_due,
        )[id].position == m[id].position,
        move_due && m[id].snake.is_some() && m[id].tail.is_none() && m[id].position.is_some()
            && m[id].velocity.is_some() ==> advanced(m, input, move_due)[id].position == Some(
            Position(
                m[id].position.unwrap().0.plus(synced(steered(m[id], input)).velocity.unwrap().0),
            ),
        ),
{
    let steered_store = m.map_values(|c: Components| steered(c, input));
    let turned = steered_store.map_values(|c: Components| synced(c));
    lemma_steered_shape(m, input);
    lemma_synced_shape(steered_store);
    lemma_shape_chain(m, steered_store, turned);
    lemma_shape_keeps(m, turned);
    assert(turned.dom() =~= m.dom());
    if move_due {
        lemma_wf_followable(turned);
        lemma_followed_shape(turned);
        assert(advanced(m, input, move_due).dom() =~= m.dom());
        if m[id].tail.is_some() {
            assert(m.dom().contains(m[id].tail.unwrap().ahead));
        }
    }
}

/// Growing changes no entity of the store, and gives the new ones no
/// direction.
pub proof fn lemma_grown_course(m: Entities, ids: Seq<EntityId>, requests: Seq<Event>, id: EntityId)
    requires
        m.dom().finite(),
        fresh(m, ids),
        grown(m, ids, requests).dom().contains(id),
    ensures
        if m.dom().contains(id) {
            grown(m, ids, requests)[id] == m[id]
        } else {
            grown(m, ids, requests)[id].head_direction is None
        },
    decreases ids.len(),
{
    if ids.len() > 0 {
        let front = ids.drop_last();
        assert(!m.dom().contains(ids[ids.len() - 1]));
        if id != ids.last() {
            lemma_grown_course(m, front, requests, id);
        }
    }
}

/// Within a tick no head turns round: unless the game ends in it, a head
/// that was not reversed when the tick began has, when it ends, the
/// direction that the input gave it, which is not the reverse of the
/// velocity it had when the tick began.
pub proof fn law_tick_never_reverses(
    pre: Frame,
    input: Input,
    move_due: bool,
    food_due: bool,
    post: Frame,
    over: bool,
    id: EntityId,
)
    requires
        well_formed(pre.entities),
        ticked(pre, input, move_due, food_due, post, over),
        !over,
        pre.entities.dom().contains(id),
        pre.entities[id].snake.is_some(),
        pre.entities[id].velocity.is_some(),
        pre.entities[id].head_direction.is_some(),
        !reversed(pre.entities[id]),
        post.entities.dom().contains(id),
    ensures
        match post.entities[id].head_direction {
            Some(d) => d == HeadDirection(
                steer(
                    pre.entities[id].head_direction.unwrap().0,
                    pre.entities[id].velocity.unwrap().0,
                    input,
                ),
            ) && !d.0.unit().is_negation_of(pre.entities[id].velocity.unwrap().0),
            None => true,
        },
{
    let trace = choose|trace: Trace| #[trigger]
        ticked_along(pre, input, move_due, food_due, trace, post, over);
    let m = pre.entities;
    let moved_on = advanced(m, input, move_due);
    let outcomes = resolved(trace.hits, moved_on);
    let eaten_up = moved_on.remove_keys(meals(outcomes).to_set());
    let rewritten = digested(moved_on, outcomes, pre.score);
    law_advance(m, input, move_due, id);
    law_no_reversal(m[id], input);
    assert(rewritten.dom() =~= eaten_up.dom());
    assert(eaten_up.dom().subset_of(moved_on.dom()));
    vstd::set_lib::lemma_len_subset(eaten_up.dom(), moved_on.dom());
    let ids = choose|ids: Seq<EntityId>| #[trigger]
        tails_spawned_as(rewritten, post.events, trace.regrown, ids);
    let restarted = trace.regrown;
    if food_due {
        let pos = choose|pos: GridVec|
            in_field(pos) && #[trigger] fed_at(restarted, post.entities, pos);
        if restarted.dom().contains(id) {
            lemma_grown_course(rewritten, ids, growths(post.events), id);
        }
    } else {
        lemma_grown_course(rewritten, ids, growths(post.events), id);
    }
}

} // verus!
