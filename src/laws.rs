//! What holds of the update loop over any run of frames.
use vstd::prelude::*;
use crate::game::{
    after_hits, click_spawns, frame, hit_count, is_player_hit, CollisionEvent, FrameInput,
    GameState, WorldView,
};
use crate::labels::{enemy_label_of, has_prefix, lemma_enemy_label_injective};
use crate::timer::tick_result;

verus! {

/// The larger of `a` and `b`.
pub open spec fn max_of(a: u64, b: u64) -> u64 {
    if a >= b {
        a
    } else {
        b
    }
}

/// The highest score a frame reaches: the score once its collisions are in.
pub open spec fn peak_score(g: GameState, input: FrameInput) -> u64 {
    (g.current_score + hit_count(input.events@)) as u64
}

/// How many enemies a frame creates: one if the countdown runs out, one for
/// a click.
pub open spec fn spawn_count(g: GameState, input: FrameInput) -> nat {
    (if tick_result(g.spawn_timer, input.delta_us).1 {
        1nat
    } else {
        0nat
    }) + (if click_spawns(input) {
        1nat
    } else {
        0nat
    })
}

/// The state after a frame, in closed form.
pub open spec fn next_state(g: GameState, input: FrameInput) -> GameState {
    let peak = peak_score(g, input);
    let timed: nat = if tick_result(g.spawn_timer, input.delta_us).1 {
        1
    } else {
        0
    };
    let clicked: nat = if click_spawns(input) {
        1
    } else {
        0
    };
    GameState {
        high_score: max_of(g.high_score, peak),
        current_score: if input.reset {
            0
        } else {
            peak
        },
        enemy_index: (if input.reset {
            clicked as int
        } else {
            g.enemy_index + timed + clicked
        }) as u64,
        spawn_timer: tick_result(g.spawn_timer, input.delta_us).0,
    }
}

/// The state after the frames `inputs`, one after the other.
pub open spec fn run(g: GameState, inputs: Seq<FrameInput>) -> GameState
    decreases inputs.len(),
{
    if inputs.len() == 0 {
        g
    } else {
        next_state(run(g, inputs.drop_last()), inputs.last())
    }
}

/// The highest of the starting high score and every frame's peak.
pub open spec fn highest_seen(g: GameState, inputs: Seq<FrameInput>) -> u64
    decreases inputs.len(),
{
    if inputs.len() == 0 {
        g.high_score
    } else {
        max_of(
            highest_seen(g, inputs.drop_last()),
            peak_score(run(g, inputs.drop_last()), inputs.last()),
        )
    }
}

/// Scoring events in all the frames.
pub open spec fn total_hits(inputs: Seq<FrameInput>) -> nat
    decreases inputs.len(),
{
    if inputs.len() == 0 {
        0
    } else {
        total_hits(inputs.drop_last()) + hit_count(inputs.last().events@)
    }
}

/// Collision events in all the frames.
pub open spec fn total_events(inputs: Seq<FrameInput>) -> nat
    decreases inputs.len(),
{
    if inputs.len() == 0 {
        0
    } else {
        total_events(inputs.drop_last()) + inputs.last().events@.len()
    }
}

/// Enemies created in all the frames.
pub open spec fn total_spawns(g: GameState, inputs: Seq<FrameInput>) -> nat
    decreases inputs.len(),
{
    if inputs.len() == 0 {
        0
    } else {
        total_spawns(g, inputs.drop_last()) + spawn_count(run(g, inputs.drop_last()), inputs.last())
    }
}

pub open spec fn no_reset(inputs: Seq<FrameInput>) -> bool {
    forall|k: int| 0 <= k < inputs.len() ==> !(#[trigger] inputs[k]).reset
}

proof fn lemma_hit_count_bound(events: Seq<CollisionEvent>)
    ensures
        hit_count(events) <= events.len(),
    decreases events.len(),
{
    if events.len() > 0 {
        lemma_hit_count_bound(events.drop_last());
    }
}

/// Collisions raise the score by the number of scoring events and the high
/// score to the larger of itself and the new score; nothing else changes.
proof fn lemma_hits_closed_form(g: GameState, w: WorldView, events: Seq<CollisionEvent>)
    requires
        g.current_score <= g.high_score,
        g.current_score + events.len() <= u64::MAX,
    ensures
        after_hits(g, w, events).0 == (GameState {
            current_score: (g.current_score + hit_count(events)) as u64,
            high_score: max_of(g.high_score, (g.current_score + hit_count(events)) as u64),
            ..g
        }),
    decreases events.len(),
{
    lemma_hit_count_bound(events);
    if events.len() > 0 {
        lemma_hits_closed_form(g, w, events.drop_last());
        lemma_hit_count_bound(events.drop_last());
    }
}

/// A frame changes the state as `next_state` says, whatever the world holds
/// and wherever a timed enemy appears.
pub proof fn lemma_frame_state(g: GameState, w: WorldView, input: FrameInput, x: i64, y: i64)
    requires
        g.wf(),
        g.current_score + input.events@.len() <= u64::MAX,
        g.enemy_index + 2 <= u64::MAX,
    ensures
        frame(g, w, input, x, y).0 == next_state(g, input),
{
    lemma_hits_closed_form(g, w, input.events@);
    lemma_hit_count_bound(input.events@);
}

/// With every event a collision of the player that begins and no reset in
/// between, the score grows by exactly the number of events: from zero, it
/// equals that number.
pub proof fn lemma_score_counts_hits(g: GameState, inputs: Seq<FrameInput>)
    requires
        no_reset(inputs),
        g.current_score + total_events(inputs) <= u64::MAX,
        forall|k: int, i: int|
            0 <= k < inputs.len() && 0 <= i < inputs[k].events@.len() ==> is_player_hit(
                #[trigger] inputs[k].events@[i],
            ),
    ensures
        run(g, inputs).current_score == g.current_score + total_events(inputs),
    decreases inputs.len(),
{
    if inputs.len() > 0 {
        let last = inputs.last();
        assert(no_reset(inputs.drop_last())) by {
            assert forall|k: int| 0 <= k < inputs.drop_last().len() implies !(
            #[trigger] inputs.drop_last()[k]).reset by {
                assert(inputs.drop_last()[k] == inputs[k]);
            }
        }
        assert forall|k: int, i: int|
            0 <= k < inputs.drop_last().len() && 0 <= i
                < inputs.drop_last()[k].events@.len() implies is_player_hit(
            #[trigger] inputs.drop_last()[k].events@[i],
        ) by {
            assert(inputs.drop_last()[k] == inputs[k]);
        }
        lemma_score_counts_hits(g, inputs.drop_last());
        assert(!inputs[inputs.len() - 1].reset);
        assert forall|i: int| 0 <= i < last.events@.len() implies is_player_hit(
            #[trigger] last.events@[i],
        ) by {
            assert(inputs[inputs.len() - 1].events@[i] == last.events@[i]);
        }
        lemma_all_hits_counted_seq(last.events@);
    }
}

proof fn lemma_all_hits_counted_seq(events: Seq<CollisionEvent>)
    requires
        forall|i: int| 0 <= i < events.len() ==> is_player_hit(#[trigger] events[i]),
    ensures
        hit_count(events) == events.len(),
    decreases events.len(),
{
    if events.len() > 0 {
        assert(is_player_hit(events[events.len() - 1]));
        lemma_all_hits_counted_seq(events.drop_last());
    }
}

/// The high score never drops from one frame to a later one, never falls
/// below the score, and equals the highest of the starting high score and
/// every score reached since.
pub proof fn lemma_high_score_ratchet(g: GameState, inputs: Seq<FrameInput>, k: int)
    requires
        g.current_score <= g.high_score,
        0 <= k <= inputs.len(),
    ensures
        run(g, inputs).high_score == highest_seen(g, inputs),
        run(g, inputs.take(k)).high_score <= run(g, inputs).high_score,
        run(g, inputs).current_score <= run(g, inputs).high_score,
    decreases inputs.len(),
{
    if inputs.len() > 0 {
        if k == inputs.len() {
            assert(inputs.take(k) =~= inputs);
            lemma_high_score_ratchet(g, inputs.drop_last(), 0);
        } else {
            assert(inputs.take(k) =~= inputs.drop_last().take(k));
            lemma_high_score_ratchet(g, inputs.drop_last(), k);
        }
    } else {
        assert(inputs.take(k) =~= inputs);
    }
}

/// A frame in which the reset key is held and no click creates an enemy
/// ends with score and counter at zero, with no sprite whose identifier
/// starts with `enemy`, and with the high score that its collisions left:
/// without scoring events, the high score it started with.
pub proof fn lemma_reset_frame(g: GameState, w: WorldView, input: FrameInput, x: i64, y: i64)
    requires
        g.wf(),
        g.current_score + input.events@.len() <= u64::MAX,
        input.reset,
        !click_spawns(input),
    ensures
        hit_count(input.events@) == 0 ==> frame(g, w, input, x, y).0.high_score == g.high_score,
        frame(g, w, input, x, y).0.current_score == 0,
        frame(g, w, input, x, y).0.enemy_index == 0,
        frame(g, w, input, x, y).0.high_score == after_hits(g, w, input.events@).0.high_score,
        forall|i: int|
            0 <= i < frame(g, w, input, x, y).1.sprites.len() ==> !has_prefix(
                #[trigger] frame(g, w, input, x, y).1.sprites[i].0,
                "enemy"@,
            ),
{
    broadcast use vstd::seq_lib::group_filter_ensures;

    lemma_hits_closed_form(g, w, input.events@);
}

proof fn lemma_index_step(g: GameState, inputs: Seq<FrameInput>, k: int)
    requires
        no_reset(inputs),
        g.enemy_index + 2 * inputs.len() <= u64::MAX,
        0 <= k < inputs.len(),
    ensures
        run(g, inputs.take(k)).enemy_index <= g.enemy_index + 2 * k,
        run(g, inputs.take(k + 1)).enemy_index == run(g, inputs.take(k)).enemy_index + spawn_count(
            run(g, inputs.take(k)),
            inputs[k],
        ),
    decreases k,
{
    if k > 0 {
        lemma_index_step(g, inputs, k - 1);
    } else {
        assert(inputs.take(0) =~= Seq::<FrameInput>::empty());
    }
    assert(inputs.take(k + 1).drop_last() =~= inputs.take(k));
    assert(!inputs[k].reset);
}

proof fn lemma_index_mono(g: GameState, inputs: Seq<FrameInput>, a: int, b: int)
    requires
        no_reset(inputs),
        g.enemy_index + 2 * inputs.len() <= u64::MAX,
        0 <= a <= b <= inputs.len(),
    ensures
        run(g, inputs.take(a)).enemy_index <= run(g, inputs.take(b)).enemy_index,
    decreases b - a,
{
    if a < b {
        lemma_index_step(g, inputs, a);
        lemma_index_mono(g, inputs, a + 1, b);
    }
}

/// Until a reset, the counter values that the frames give their new enemies
/// (frame `k` gives `run(g, inputs.take(k)).enemy_index + j` for each
/// `j < spawn_count`) never repeat, so no two of those enemies share an
/// identifier, whether a timer or a click created them.
pub proof fn lemma_spawn_labels_unique(
    g: GameState,
    inputs: Seq<FrameInput>,
    k1: int,
    j1: int,
    k2: int,
    j2: int,
)
    requires
        no_reset(inputs),
        g.enemy_index + 2 * inputs.len() <= u64::MAX,
        0 <= k1 < inputs.len(),
        0 <= k2 < inputs.len(),
        0 <= j1 < spawn_count(run(g, inputs.take(k1)), inputs[k1]),
        0 <= j2 < spawn_count(run(g, inputs.take(k2)), inputs[k2]),
        k1 != k2 || j1 != j2,
    ensures
        enemy_label_of((run(g, inputs.take(k1)).enemy_index + j1) as nat) != enemy_label_of(
            (run(g, inputs.take(k2)).enemy_index + j2) as nat,
        ),
{
    let a = run(g, inputs.take(k1)).enemy_index + j1;
    let b = run(g, inputs.take(k2)).enemy_index + j2;
    if k1 < k2 {
        lemma_index_step(g, inputs, k1);
        lemma_index_mono(g, inputs, k1 + 1, k2);
    } else if k2 < k1 {
        lemma_index_step(g, inputs, k2);
        lemma_index_mono(g, inputs, k2 + 1, k1);
    }
    assert(a != b);
    lemma_enemy_label_injective(a as nat, b as nat);
}

} // verus!
