//! The score: counted from the events of a tick, and written to every text
//! that shows it.

use vstd::prelude::*;
use crate::components::{EntityId, Score, Text, TextView};
use crate::events::Event;
use crate::render::{asset_views, AssetCommand, RenderAssetCommands};
use crate::store::{
    Components, Entities, entities_of, get, holders2, lemma_overlay_end, lemma_overlay_start,
    lemma_overlay_step, lists_exactly, overlay, overwrite, select2,
};
use crate::systems::GameWorld;

verus! {

/// The character of a decimal digit.
pub open spec fn digit(d: nat) -> char {
    if d == 0 {
        '0'
    } else if d == 1 {
        '1'
    } else if d == 2 {
        '2'
    } else if d == 3 {
        '3'
    } else if d == 4 {
        '4'
    } else if d == 5 {
        '5'
    } else if d == 6 {
        '6'
    } else if d == 7 {
        '7'
    } else if d == 8 {
        '8'
    } else {
        '9'
    }
}

/// The decimal digits of a natural number, without leading zeros.
pub open spec fn digits(n: nat) -> Seq<char>
    decreases n,
{
    if n < 10 {
        seq![digit(n)]
    } else {
        digits(n / 10).push(digit(n % 10))
    }
}

/// An integer written in decimal, with a minus sign where it is negative.
pub open spec fn decimal(n: int) -> Seq<char> {
    if n < 0 {
        seq!['-'] + digits((-n) as nat)
    } else {
        digits(n as nat)
    }
}

/// What the texts that show the score begin with.
pub open spec fn score_prefix() -> Seq<char> {
    "Score:  "@
}

/// The text that shows a score.
pub open spec fn score_text(score: int) -> Seq<char> {
    score_prefix() + decimal(score)
}

/// `format!` of a string followed by an `i32`: the string, then the
/// number as `Display` writes it, which is its decimal form.
#[verifier::external_body]
fn label(prefix: &str, score: i32) -> (text: String)
    ensures
        text@ == prefix@ + decimal(score as int),
{
    format!("{}{}", prefix, score)
}

/// The score after one more meal: one higher, held at the end of the range
/// of `i32`.
pub open spec fn bumped(score: int) -> int {
    if score < i32::MAX {
        score + 1
    } else {
        score
    }
}

/// Whether an event changes the score.
pub open spec fn scores(e: Event) -> bool {
    e is SnakeEatFood || e is GameOver
}

/// The score after the events of a queue, taken in their order: every meal
/// adds one, the end of the game sets it to zero.
pub open spec fn tally(events: Seq<Event>, start: int) -> int
    decreases events.len(),
{
    if events.len() == 0 {
        start
    } else {
        let earlier = tally(events.drop_last(), start);
        match events.last() {
            Event::SnakeEatFood { .. } => bumped(earlier),
            Event::GameOver => 0,
            _ => earlier,
        }
    }
}

/// Whether a queue holds an event that changes the score.
pub open spec fn scored(events: Seq<Event>) -> bool {
    exists|i: int| 0 <= i < events.len() && scores(events[i])
}

/// What a text that shows the score reads after the events of a queue: the
/// score, once an event changed it, and until then what it read before.
pub open spec fn shown(events: Seq<Event>, start: int, original: Seq<char>) -> Seq<char> {
    if scored(events) {
        score_text(tally(events, start))
    } else {
        original
    }
}

/// What the score system does to one entity: a text that is marked as the
/// score reads what `shown` gives.
pub open spec fn captioned(c: Components, events: Seq<Event>, start: int) -> Components {
    if c.text.is_some() && c.score.is_some() {
        Components {
            text: Some(
                TextView {
                    text: shown(events, start, c.text.unwrap().text),
                    font: c.text.unwrap().font,
                },
            ),
            ..c
        }
    } else {
        c
    }
}

/// The command that replaces what the text of `c` reads by `new_text`.
pub open spec fn replacement(c: Components, new_text: Seq<char>) -> AssetCommand {
    AssetCommand::UpdateText {
        new_text,
        text: c.text.unwrap().text,
        font: c.text.unwrap().font,
    }
}

/// The commands that the events of a queue give rise to: for every event
/// that changes the score, in their order, one replacement for each of
/// `boards`, from what the text read until then to the new score.
pub open spec fn announcements(
    events: Seq<Event>,
    start: int,
    boards: Seq<EntityId>,
    m: Entities,
) -> Seq<AssetCommand>
    decreases events.len(),
{
    if events.len() == 0 {
        Seq::empty()
    } else {
        let earlier = events.drop_last();
        let said = announcements(earlier, start, boards, m);
        if scores(events.last()) {
            said + boards.map_values(
                |id: EntityId|
                    replacement(captioned(m[id], earlier, start), score_text(tally(events, start))),
            )
        } else {
            said
        }
    }
}

/// Whether `after` is `before` followed by the announcements of `events`
/// for the texts that show the score, in the order in which the store
/// lists them.
pub open spec fn score_announced(
    m: Entities,
    events: Seq<Event>,
    start: int,
    before: Seq<AssetCommand>,
    after: Seq<AssetCommand>,
) -> bool {
    exists|boards: Seq<EntityId>|
        lists_exactly(boards, holders2::<Text, Score>(m)) && after == before + #[trigger] announcements(
            events,
            start,
            boards,
            m,
        )
}

/// What writing `text` to the score does to one entity.
pub open spec fn relabelled(c: Components, text: Seq<char>) -> Components {
    if c.text.is_some() && c.score.is_some() {
        Components { text: Some(TextView { text, font: c.text.unwrap().font }), ..c }
    } else {
        c
    }
}

/// Writes `score` to each of `boards`, and queues the command that tells
/// the renderer of it.
fn announce(
    world: &mut hecs::World,
    boards: &Vec<EntityId>,
    score: i32,
    cmds: &mut Vec<RenderAssetCommands>,
)
    requires
        lists_exactly(boards@, holders2::<Text, Score>(entities_of(*old(world)))),
    ensures
        entities_of(*final(world)) == entities_of(*old(world)).map_values(
            |c: Components| relabelled(c, score_text(score as int)),
        ),
        asset_views(final(cmds)@) == asset_views(old(cmds)@) + boards@.map_values(
            |id: EntityId| replacement(entities_of(*old(world))[id], score_text(score as int)),
        ),
{
    let ghost m = entities_of(*world);
    let ghost text = score_text(score as int);
    let ghost change = |id: EntityId| relabelled(m[id], text);
    let ghost said = |id: EntityId| replacement(m[id], text);
    let n: usize = boards.len();
    let mut i: usize = 0;
    proof {
        lemma_overlay_start(m, change);
        assert(boards@.take(0) =~= Seq::<EntityId>::empty());
        assert(asset_views(cmds@) + boards@.take(0).map_values(said) =~= asset_views(cmds@));
    }
    while i < n
        invariant
            i <= n,
            n == boards@.len(),
            lists_exactly(boards@, holders2::<Text, Score>(m)),
            text == score_text(score as int),
            change == |id: EntityId| relabelled(m[id], text),
            said == |id: EntityId| replacement(m[id], text),
            entities_of(*world) == overlay(m, boards@.take(i as int), change),
            asset_views(cmds@) == asset_views(old(cmds)@) + boards@.take(i as int).map_values(said),
        decreases n - i,
    {
        let id: EntityId = boards[i];
        proof {
            assert(boards@.contains(id));
            lemma_overlay_step(m, boards@, i as int, change);
            boards@.lemma_take_succ_push(i as int);
            boards@.take(i as int).lemma_push_map_commute(said, id);
        }
        let mut board: Text = get::<Text>(world, id).unwrap();
        let cmd: RenderAssetCommands = board.update_text(label("Score:  ", score));
        let ghost sooner = asset_views(cmds@);
        cmds.push(cmd);
        proof {
            assert(asset_views(cmds@) =~= sooner.push(cmd@));
        }
        overwrite::<Text>(world, id, board);
        i += 1;
    }
    proof {
        assert(boards@.take(n as int) =~= boards@);
        lemma_overlay_end(m, boards@, change);
        assert(entities_of(*world) =~= m.map_values(|c: Components| relabelled(c, text)));
    }
}

/// One more event changes the score of a queue as `tally` says, and leaves
/// it scored if it was, or if the event changes the score.
pub proof fn lemma_scored_step(events: Seq<Event>, k: int)
    requires
        0 <= k < events.len(),
    ensures
        events.take(k + 1).drop_last() == events.take(k),
        events.take(k + 1).last() == events[k],
        scored(events.take(k + 1)) == (scored(events.take(k)) || scores(events[k])),
{
    let now = events.take(k);
    let next = events.take(k + 1);
    assert(next.drop_last() =~= now);
    if scored(now) {
        let j = choose|j: int| 0 <= j < now.len() && scores(now[j]);
        assert(scores(next[j]));
    }
    if scores(events[k]) {
        assert(scores(next[k]));
    }
    if scored(next) {
        let j = choose|j: int| 0 <= j < next.len() && scores(next[j]);
        if j < k {
            assert(scores(now[j]));
        }
    }
}

/// Counts the score: every meal in the queue adds one, the end of the game
/// sets it to zero. After each change, every text that shows the score is
/// rewritten, and the renderer is told.
pub fn update_score_system(
    game_world: &mut GameWorld,
    score: &mut i32,
    cmds: &mut Vec<RenderAssetCommands>,
)
    ensures
        *final(score) == tally(old(game_world).events@, *old(score) as int),
        final(game_world).entities() == old(game_world).entities().map_values(
            |c: Components| captioned(c, old(game_world).events@, *old(score) as int),
        ),
        final(game_world).events@ == old(game_world).events@,
        score_announced(
            old(game_world).entities(),
            old(game_world).events@,
            *old(score) as int,
            asset_views(old(cmds)@),
            asset_views(final(cmds)@),
        ),
{
    let ghost m = game_world.entities();
    let ghost events = game_world.events@;
    let ghost start = *score as int;
    let ghost before = asset_views(cmds@);
    let boards: Vec<EntityId> = select2::<Text, Score>(&mut game_world.world);
    let n: usize = game_world.events.len();
    let mut i: usize = 0;
    proof {
        assert(events.take(0) =~= Seq::<Event>::empty());
        assert(!scored(events.take(0)));
        assert(m.map_values(|c: Components| captioned(c, events.take(0), start)) =~= m);
        assert(before + announcements(events.take(0), start, boards@, m) =~= before);
    }
    while i < n
        invariant
            i <= n,
            n == events.len(),
            game_world.events@ == events,
            lists_exactly(boards@, holders2::<Text, Score>(m)),
            *score == tally(events.take(i as int), start),
            game_world.entities() == m.map_values(
                |c: Components| captioned(c, events.take(i as int), start),
            ),
            asset_views(cmds@) == before + announcements(events.take(i as int), start, boards@, m),
        decreases n - i,
    {
        let e: Event = game_world.events[i];
        let ghost now = events.take(i as int);
        let ghost next = events.take(i as int + 1);
        let ghost current = game_world.entities();
        proof {
            lemma_scored_step(events, i as int);
            assert(holders2::<Text, Score>(current) =~= holders2::<Text, Score>(m));
        }
        match e {
            Event::SnakeEatFood { .. } => {
                if *score < i32::MAX {
                    *score = *score + 1;
                }
                announce(&mut game_world.world, &boards, *score, cmds);
            },
            Event::GameOver => {
                *score = 0;
                announce(&mut game_world.world, &boards, *score, cmds);
            },
            _ => {},
        }
        proof {
            if scores(e) {
                let text = score_text(tally(next, start));
                assert(game_world.entities() =~= m.map_values(
                    |c: Components| captioned(c, next, start),
                ));
                assert(boards@.map_values(|id: EntityId| replacement(current[id], text))
                    =~= boards@.map_values(
                    |id: EntityId| replacement(captioned(m[id], now, start), text),
                )) by {
                    assert forall|j: int| 0 <= j < boards@.len() implies current[boards@[j]]
                        == captioned(m[boards@[j]], now, start) by {
                        assert(boards@.contains(boards@[j]));
                    }
                }
                assert(before + announcements(now, start, boards@, m) + boards@.map_values(
                    |id: EntityId| replacement(captioned(m[id], now, start), text),
                ) =~= before + announcements(next, start, boards@, m));
            } else {
                assert(game_world.entities() =~= m.map_values(
                    |c: Components| captioned(c, next, start),
                ));
            }
        }
        i += 1;
    }
    proof {
        assert(events.take(n as int) =~= events);
    }
}

} // verus!
