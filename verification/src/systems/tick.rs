//! One tick of the game: the systems, run in their order.

use vstd::prelude::*;
use crate::components::{EntityId, GridVec, Input};
use crate::events::Event;
use crate::invariants::{
    anchored, lemma_captioned_shape, lemma_feeding_keeps, lemma_followed_shape, lemma_growth_keeps,
    lemma_moved_shape, lemma_new_snake, lemma_removal_count, lemma_removal_keeps, lemma_shape_chain,
    lemma_shape_keeps, lemma_steered_shape, lemma_synced_shape, lemma_wf_followable, same_shape,
};
use crate::render::{asset_views, AssetCommand, RenderAssetCommands};
use crate::seqs::{lemma_filter_all, lemma_filter_map_distinct, lemma_filter_none};
use crate::store::{Components, Entities};
use crate::systems::collision::{
    collision_with, collisions, detection, detection_by, handle_collision_system,
    head_collision_system, is_head, next_cell, occupants, outcome, resolution, resolvable,
};
use crate::systems::growth::{
    despawn_food_system, growth_behind, growth_requested, growth_requested_behind, growths,
    is_segment, lemma_grown_dom, meal_of, meals, servable, spawn_tail_system, tails_spawned,
    tails_spawned_as, trigger_tail_spawn, wants_growth,
};
use crate::systems::lifecycle::{
    add_food_system, fed, fed_at, food_count, FOOD_LIMIT, game_over_system, in_field, is_over,
    snake_created,
};
use crate::systems::movement::{
    moved, movement_system, steered, synced, tail_followed, tail_movement_system, update_input,
    update_velocity_direction,
};
use crate::systems::score::{captioned, score_announced, tally, update_score_system};
use crate::systems::{edible, GameWorld, well_formed};

verus! {

/// What a tick works on: the store, the queue, the score and the commands
/// queued for the renderer's texts.
pub struct Frame {
    pub entities: Entities,
    pub events: Seq<Event>,
    pub score: int,
    pub said: Seq<AssetCommand>,
}

/// The frame that a game, a score and a queue of commands make up.
pub open spec fn frame(game_world: GameWorld, score: i32, cmds: Vec<RenderAssetCommands>) -> Frame {
    Frame {
        entities: game_world.entities(),
        events: game_world.events@,
        score: score as int,
        said: asset_views(cmds@),
    }
}

/// What a tick leaves to the store to decide: the collisions as the store
/// listed them, and the stores that came of growing and of restarting,
/// whose new handles the store picked.
pub struct Trace {
    pub hits: Seq<Event>,
    pub regrown: Entities,
    pub restarted: Entities,
}

/// The store after direction intake and velocity synchronization and,
/// where a step is due, after the tail followed and the head moved.
pub open spec fn advanced(m: Entities, input: Input, move_due: bool) -> Entities {
    let turned = m.map_values(|c: Components| steered(c, input)).map_values(
        |c: Components| synced(c),
    );
    if move_due {
        tail_followed(turned).map_values(|c: Components| moved(c))
    } else {
        turned
    }
}

/// The queue after detection found `hits` in the store `m` and resolution
/// turned them into their outcomes.
pub open spec fn resolved(hits: Seq<Event>, m: Entities) -> Seq<Event> {
    resolution(hits, m)
}

/// The store `m` after the food of the meals in `events` left it and the
/// score was rewritten.
pub open spec fn digested(m: Entities, events: Seq<Event>, score: int) -> Entities {
    m.remove_keys(meals(events).to_set()).map_values(
        |c: Components| captioned(c, events, score),
    )
}

/// Whether a tick leads from `pre` to `post` along `trace`. The queue of
/// `pre` is dropped. Then the systems run in their order: direction intake,
/// velocity synchronization, movement where it is due, detection,
/// resolution, the removal of eaten food, the score, the request for growth
/// and the growth itself, the end of the game, and new food where it is
/// due. `over` tells whether the game ended and started anew.
pub open spec fn ticked_along(
    pre: Frame,
    input: Input,
    move_due: bool,
    food_due: bool,
    trace: Trace,
    post: Frame,
    over: bool,
) -> bool {
    let moved_on = advanced(pre.entities, input, move_due);
    let outcomes = resolved(trace.hits, moved_on);
    let eaten_up = moved_on.remove_keys(meals(outcomes).to_set());
    let rewritten = digested(moved_on, outcomes, pre.score);
    &&& detection(moved_on, Seq::empty(), trace.hits)
    &&& post.score == tally(outcomes, pre.score)
    &&& score_announced(eaten_up, outcomes, pre.score, pre.said, post.said)
    &&& growth_requested(rewritten, outcomes, post.events)
    &&& tails_spawned(rewritten, post.events, trace.regrown)
    &&& over == is_over(post.events)
    &&& if over {
        snake_created(Entities::empty(), trace.restarted)
    } else {
        trace.restarted == trace.regrown
    }
    &&& if food_due {
        fed(trace.restarted, post.entities)
    } else {
        post.entities == trace.restarted
    }
}

/// Whether a tick leads from `pre` to `post`, whatever the store decided
/// on the way.
pub open spec fn ticked(
    pre: Frame,
    input: Input,
    move_due: bool,
    food_due: bool,
    post: Frame,
    over: bool,
) -> bool {
    exists|trace: Trace| #[trigger] ticked_along(pre, input, move_due, food_due, trace, post, over)
}

/// Moving on keeps the shape of a well-formed store.
pub proof fn lemma_advanced_shape(m: Entities, input: Input, move_due: bool)
    requires
        well_formed(m),
    ensures
        same_shape(m, advanced(m, input, move_due)),
        same_shape(
            m,
            m.map_values(|c: Components| steered(c, input)).map_values(|c: Components| synced(c)),
        ),
{
    let steered_store = m.map_values(|c: Components| steered(c, input));
    let turned = steered_store.map_values(|c: Components| synced(c));
    lemma_steered_shape(m, input);
    lemma_synced_shape(steered_store);
    lemma_shape_chain(m, steered_store, turned);
    if move_due {
        lemma_shape_keeps(m, turned);
        lemma_wf_followable(turned);
        lemma_followed_shape(turned);
        lemma_moved_shape(tail_followed(turned));
        lemma_shape_chain(m, turned, tail_followed(turned));
        lemma_shape_chain(m, tail_followed(turned), advanced(m, input, move_due));
    }
}

/// What detection finds can be resolved, and what resolution makes of it
/// can be served: the meals are distinct live entities that the head can
/// eat, and nothing asks for growth yet.
pub proof fn lemma_detection_resolves(m: Entities, hits: Seq<Event>)
    requires
        detection(m, Seq::empty(), hits),
    ensures
        resolvable(hits, m),
        servable(resolution(hits, m), m),
        forall|id: EntityId| meals(resolution(hits, m)).contains(id) ==> edible(m[id]),
        growths(resolution(hits, m)) == Seq::<Event>::empty(),
{
    let out = resolution(hits, m);
    if forall|id: EntityId| !is_head(m, id) {
        assert(hits =~= Seq::<Event>::empty());
        lemma_filter_none(hits, |e: Event| e is Collision);
        lemma_filter_none(hits, |e: Event| !(e is Collision));
        assert(out =~= Seq::<Event>::empty());
        lemma_filter_none(out, wants_growth());
        lemma_filter_map_distinct(out, |e: Event| meal_of(e));
    } else {
        let (head, targets) = choose|head: EntityId, targets: Seq<EntityId>| #[trigger]
            detection_by(m, Seq::empty(), hits, head, targets);
        let cell = next_cell(m[head]);
        assert(hits =~= targets.map_values(|t: EntityId| collision_with(m, head, t)));
        assert forall|i: int| 0 <= i < targets.len() implies occupants(m, cell).contains(
            #[trigger] targets[i],
        ) by {
            assert(targets.contains(targets[i]));
        }
        assert forall|i: int| 0 <= i < hits.len() implies (#[trigger] hits[i]) is Collision by {
            assert(occupants(m, cell).contains(targets[i]));
        }
        lemma_filter_all(hits, |e: Event| e is Collision);
        lemma_filter_none(hits, |e: Event| !(e is Collision));
        assert(out =~= hits.map_values(|e: Event| outcome(e, m)));
        assert forall|i: int| 0 <= i < out.len() implies !wants_growth()(#[trigger] out[i]) by {
            assert(hits[i] is Collision);
        }
        lemma_filter_none(out, wants_growth());
        assert forall|i: int| 0 <= i < out.len() implies (meal_of(#[trigger] out[i]) == if edible(
            m[targets[i]],
        ) {
            Some(targets[i])
        } else {
            None
        }) by {
            assert(occupants(m, cell).contains(targets[i]));
            assert(hits[i] == collision_with(m, head, targets[i]));
        }
        let pick = |e: Event| meal_of(e);
        assert forall|i: int, j: int|
            0 <= i < j < out.len() && pick(out[i]).is_some() implies #[trigger] pick(out[i])
            != #[trigger] pick(out[j]) by {
            assert(meal_of(out[i]) == Some(targets[i]));
            assert(targets[i] != targets[j]);
        }
        lemma_filter_map_distinct(out, pick);
        assert forall|id: EntityId| meals(out).contains(id) implies edible(m[id])
            && m.dom().contains(id) by {
            let i = choose|i: int| 0 <= i < out.len() && #[trigger] pick(out[i]) == Some(id);
            assert(meal_of(out[i]) == Some(id));
            assert(occupants(m, cell).contains(targets[i]));
        }
    }
}

/// Runs one tick. The events of the tick before are dropped first; then
/// the systems run in their order. Movement runs where `move_due` says so,
/// the food system where `food_due` does. Returns whether the game ended
/// and started anew.
pub fn tick(
    game_world: &mut GameWorld,
    input: &Input,
    score: &mut i32,
    cmds: &mut Vec<RenderAssetCommands>,
    move_due: bool,
    food_due: bool,
) -> (over: bool)
    requires
        old(game_world).can_tick(),
    ensures
        ticked(
            frame(*old(game_world), *old(score), *old(cmds)),
            *input,
            move_due,
            food_due,
            frame(*final(game_world), *final(score), *final(cmds)),
            over,
        ),
        final(game_world).wf(),
        food_count(old(game_world).entities()) <= FOOD_LIMIT ==> food_count(
            final(game_world).entities(),
        ) <= FOOD_LIMIT,
        final(game_world).entities().dom().len() <= (if over {
            2
        } else {
            old(game_world).entities().dom().len()
        }) + (if food_due {
            1nat
        } else {
            0nat
        }),
{
    let ghost pre = frame(*game_world, *score, *cmds);
    let ghost m0 = game_world.entities();
    game_world.events.clear();
    update_input(game_world, input);
    update_velocity_direction(game_world);
    proof {
        lemma_advanced_shape(m0, *input, move_due);
        lemma_shape_keeps(m0, game_world.entities());
        lemma_wf_followable(game_world.entities());
    }
    if move_due {
        tail_movement_system(game_world);
        movement_system(game_world);
    }
    let ghost m1 = game_world.entities();
    proof {
        assert(m1 == advanced(m0, *input, move_due));
        lemma_shape_keeps(m0, m1);
    }
    head_collision_system(game_world);
    let ghost hits = game_world.events@;
    proof {
        lemma_detection_resolves(m1, hits);
    }
    handle_collision_system(game_world);
    let ghost outcomes = game_world.events@;
    proof {
        lemma_removal_keeps(m1, meals(outcomes).to_set());
        lemma_removal_count(m1, meals(outcomes));
    }
    despawn_food_system(game_world);
    let ghost m2 = game_world.entities();
    update_score_system(game_world, score, cmds);
    let ghost m3 = game_world.entities();
    proof {
        lemma_captioned_shape(m2, outcomes, pre.score);
        lemma_shape_keeps(m2, m3);
        assert(m3 == digested(m1, outcomes, pre.score));
    }
    trigger_tail_spawn(game_world);
    let ghost requests = game_world.events@;
    proof {
        lemma_requests_anchored(m3, outcomes, requests);
    }
    spawn_tail_system(game_world);
    let ghost m4 = game_world.entities();
    proof {
        let ids = choose|ids: Seq<EntityId>| #[trigger] tails_spawned_as(m3, requests, m4, ids);
        lemma_growth_keeps(m3, ids, growths(requests));
        lemma_grown_dom(m3, ids, growths(requests));
    }
    let over: bool = game_over_system(game_world);
    let ghost m5 = game_world.entities();
    proof {
        if over {
            lemma_new_snake(m5);
            assert(m5.dom().finite()) by {
                assert(m5.dom().len() == 2);
            }
        }
    }
    if food_due {
        add_food_system(game_world);
        proof {
            let pos = choose|pos: GridVec|
                in_field(pos) && #[trigger] fed_at(
                    m5,
                    game_world.entities(),
                    pos,
                );
            lemma_feeding_keeps(m5, game_world.entities(), pos);
        }
    }
    proof {
        let trace = Trace { hits, regrown: m4, restarted: m5 };
        let post = frame(*game_world, *score, *cmds);
        assert(ticked_along(pre, *input, move_due, food_due, trace, post, over));
    }
    over
}

/// After resolution of what detection found, the requests for growth are
/// as many as the meals at most, and each asks to grow behind an entity
/// that can be followed.
pub proof fn lemma_requests_anchored(m: Entities, outcomes: Seq<Event>, requests: Seq<Event>)
    requires
        well_formed(m),
        growths(outcomes) == Seq::<Event>::empty(),
        growth_requested(m, outcomes, requests),
    ensures
        growths(requests).len() <= meals(outcomes).len(),
        anchored(m, growths(requests), growths(requests).len()),
{
    if meals(outcomes).len() == 0 || forall|id: EntityId| !is_segment(m, id) {
        assert(growths(requests) == Seq::<Event>::empty());
    } else {
        let end = choose|end: EntityId| #[trigger]
            growth_requested_behind(m, outcomes, requests, end);
        let added = Seq::new(meals(outcomes).len(), |i: int| growth_behind(m, end));
        Seq::filter_distributes_over_add(outcomes, added, wants_growth());
        lemma_filter_all(added, wants_growth());
        assert(growths(requests) =~= added);
        assert(is_segment(m, end));
        assert(m.dom().contains(end));
    }
}

} // verus!
