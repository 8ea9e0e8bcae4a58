//! The per-frame update: collisions and scoring, timed spawning, movement,
//! reset, and spawning on click.
use vstd::prelude::*;
use rand::Rng;
use crate::labels::{
    enemy_label, enemy_label_of, has_prefix, high_score_text, high_score_text_of, score_text,
    score_text_of, starts_with,
};
use crate::scene::{
    moved, with_sprite, without_label, without_prefix, Scene, Sprite, SpriteView,
};
use crate::timer::{tick_result, SpawnTimer, SPAWN_PERIOD_US};

verus! {

/// Player speed: 250 units per second, that is 250 micro-units per microsecond.
pub const MOVEMENT_SPEED: u64 = 250;

/// Longest frame whose movement fits in `i64` micro-units.
pub const MAX_DELTA_US: u64 = 36_893_488_147_419_103;

/// Timed enemies appear at `-SPAWN_X_LIMIT <= x < SPAWN_X_LIMIT`.
pub const SPAWN_X_LIMIT: i64 = 550_000_000;

/// Timed enemies appear at `-SPAWN_Y_LIMIT <= y < SPAWN_Y_LIMIT`.
pub const SPAWN_Y_LIMIT: i64 = 325_000_000;

/// Whether two bodies started or stopped touching.
#[derive(Clone, Copy, Debug, PartialEq, Eq, Structural)]
pub enum CollisionState {
    Begin,
    End,
}

/// A collision between the sprites `first` and `second`.
#[derive(Debug)]
pub struct CollisionEvent {
    pub state: CollisionState,
    pub first: String,
    pub second: String,
}

/// A sound cue to play.
#[derive(Clone, Copy, Debug, PartialEq, Eq, Structural)]
pub enum Sound {
    Impact,
    Click,
}

/// What the host reports for one frame.
#[derive(Debug)]
pub struct FrameInput {
    /// Collision events since the last frame, in the order reported.
    pub events: Vec<CollisionEvent>,
    /// Duration of the frame in microseconds.
    pub delta_us: u64,
    /// Held direction keys (W/Up, S/Down, A/Left, D/Right).
    pub up: bool,
    pub down: bool,
    pub left: bool,
    pub right: bool,
    /// The reset key is held.
    pub reset: bool,
    /// The left mouse button went down in this frame.
    pub mouse_pressed: bool,
    /// Pointer position in micro-units, if the pointer is over the field.
    pub mouse_location: Option<(i64, i64)>,
}

/// Scores, the enemy counter and the spawn countdown.
#[derive(Clone, Copy, Debug)]
pub struct GameState {
    pub high_score: u64,
    pub current_score: u64,
    pub enemy_index: u64,
    pub spawn_timer: SpawnTimer,
}

impl GameState {
    pub open spec fn wf(&self) -> bool {
        self.spawn_timer.wf() && self.spawn_timer.period_us == SPAWN_PERIOD_US
            && self.current_score <= self.high_score
    }

    /// Both scores and the counter at zero, the countdown just started.
    pub fn new() -> (r: GameState)
        ensures
            r.wf(),
            r.high_score == 0,
            r.current_score == 0,
            r.enemy_index == 0,
            r.spawn_timer.elapsed_us == 0,
    {
        GameState {
            high_score: 0,
            current_score: 0,
            enemy_index: 0,
            spawn_timer: SpawnTimer::new(SPAWN_PERIOD_US),
        }
    }
}

impl Default for GameState {
    fn default() -> (r: GameState)
        ensures
            r.wf(),
            r.high_score == 0,
            r.current_score == 0,
            r.enemy_index == 0,
            r.spawn_timer.elapsed_us == 0,
    {
        GameState::new()
    }
}

/// The field as the loop sees it: sprites, the two score labels, and the
/// sound cues queued for the host.
pub struct World {
    pub scene: Scene,
    pub score_text: String,
    pub high_score_text: String,
    pub sounds: Vec<Sound>,
}

pub ghost struct WorldView {
    pub sprites: Seq<SpriteView>,
    pub score_text: Seq<char>,
    pub high_score_text: Seq<char>,
    pub sounds: Seq<Sound>,
}

impl View for World {
    type V = WorldView;

    open spec fn view(&self) -> WorldView {
        WorldView {
            sprites: self.scene@,
            score_text: self.score_text@,
            high_score_text: self.high_score_text@,
            sounds: self.sounds@,
        }
    }
}

/// The starting field: the player at the origin and both scores at zero.
pub open spec fn initial_world() -> WorldView {
    WorldView {
        sprites: seq![("player"@, 0i64, 0i64, true)],
        score_text: score_text_of(0),
        high_score_text: high_score_text_of(0),
        sounds: Seq::empty(),
    }
}

impl World {
    pub fn new() -> (r: World)
        ensures
            r@ == initial_world(),
    {
        let mut scene = Scene::new();
        scene.add(Sprite { label: String::from_str("player"), x: 0, y: 0, collision: true });
        proof {
            reveal(Seq::filter);
        }
        let r = World {
            scene,
            score_text: score_text(0),
            high_score_text: high_score_text(0),
            sounds: Vec::new(),
        };
        assert(r@.sprites =~= initial_world().sprites);
        assert(r@.sounds =~= initial_world().sounds);
        r
    }
}

/// An identifier that belongs to the player.
pub open spec fn is_player(label: Seq<char>) -> bool {
    has_prefix(label, "player"@)
}

/// A collision that starts and involves the player: it scores.
pub open spec fn is_player_hit(e: CollisionEvent) -> bool {
    e.state == CollisionState::Begin && (is_player(e.first@) || is_player(e.second@))
}

/// The number of scoring events in `events`.
pub open spec fn hit_count(events: Seq<CollisionEvent>) -> nat
    decreases events.len(),
{
    if events.len() == 0 {
        0
    } else {
        hit_count(events.drop_last()) + if is_player_hit(events.last()) {
            1nat
        } else {
            0nat
        }
    }
}

/// `s` without the sprite `label`, unless `label` belongs to the player.
pub open spec fn remove_unless_player(s: Seq<SpriteView>, label: Seq<char>) -> Seq<SpriteView> {
    if is_player(label) {
        s
    } else {
        without_label(s, label)
    }
}

/// One collision event processed.
pub open spec fn after_hit(g: GameState, w: WorldView, e: CollisionEvent) -> (GameState, WorldView) {
    if !is_player_hit(e) {
        (g, w)
    } else {
        let score = (g.current_score + 1) as u64;
        let record = score > g.high_score;
        (
            GameState {
                current_score: score,
                high_score: if record {
                    score
                } else {
                    g.high_score
                },
                ..g
            },
            WorldView {
                sprites: remove_unless_player(
                    remove_unless_player(w.sprites, e.first@),
                    e.second@,
                ),
                score_text: score_text_of(score as nat),
                high_score_text: if record {
                    high_score_text_of(score as nat)
                } else {
                    w.high_score_text
                },
                sounds: w.sounds.push(Sound::Impact),
            },
        )
    }
}

/// The collision events processed in order.
pub open spec fn after_hits(g: GameState, w: WorldView, events: Seq<CollisionEvent>) -> (
    GameState,
    WorldView,
)
    decreases events.len(),
{
    if events.len() == 0 {
        (g, w)
    } else {
        let (g1, w1) = after_hits(g, w, events.drop_last());
        after_hit(g1, w1, events.last())
    }
}

/// An enemy created at (`x`, `y`) under the current counter value.
pub open spec fn spawned(g: GameState, w: WorldView, x: i64, y: i64) -> (GameState, WorldView) {
    (
        GameState { enemy_index: (g.enemy_index + 1) as u64, ..g },
        WorldView {
            sprites: with_sprite(w.sprites, (enemy_label_of(g.enemy_index as nat), x, y, true)),
            ..w
        },
    )
}

/// The countdown advanced by `delta_us`; an enemy at (`x`, `y`) if it ran out.
pub open spec fn after_timer(g: GameState, w: WorldView, delta_us: u64, x: i64, y: i64) -> (
    GameState,
    WorldView,
) {
    let (t, fired) = tick_result(g.spawn_timer, delta_us);
    let g1 = GameState { spawn_timer: t, ..g };
    if fired {
        spawned(g1, w, x, y)
    } else {
        (g1, w)
    }
}

/// Displacement along one axis: `d` forward, `d` back, or both.
pub open spec fn axis_step(forward: bool, back: bool, d: int) -> int {
    (if forward {
        d
    } else {
        0
    }) - (if back {
        d
    } else {
        0
    })
}

/// Distance the player covers in a frame of `delta_us`.
pub open spec fn frame_distance(delta_us: u64) -> int {
    MOVEMENT_SPEED * delta_us
}

/// Movement, then reset if its key is held.
pub open spec fn after_keys(g: GameState, w: WorldView, input: FrameInput) -> (
    GameState,
    WorldView,
) {
    let d = frame_distance(input.delta_us);
    let dx = axis_step(input.right, input.left, d) as i64;
    let dy = axis_step(input.up, input.down, d) as i64;
    let w1 = WorldView { sprites: moved(w.sprites, "player"@, dx, dy), ..w };
    if input.reset {
        (
            GameState { current_score: 0, enemy_index: 0, ..g },
            WorldView {
                sprites: without_prefix(w1.sprites, "enemy"@),
                score_text: score_text_of(g.current_score as nat),
                ..w1
            },
        )
    } else {
        (g, w1)
    }
}

/// The click of this frame creates an enemy.
pub open spec fn click_spawns(input: FrameInput) -> bool {
    input.mouse_pressed && input.mouse_location is Some
}

/// An enemy under the pointer, with its sound, if the click spawns.
pub open spec fn after_click(g: GameState, w: WorldView, input: FrameInput) -> (
    GameState,
    WorldView,
) {
    if click_spawns(input) {
        let (x, y) = input.mouse_location->Some_0;
        let (g1, w1) = spawned(g, w, x, y);
        (g1, WorldView { sounds: w1.sounds.push(Sound::Click), ..w1 })
    } else {
        (g, w)
    }
}

/// One whole frame; a timed enemy, if any, appears at (`x`, `y`).
pub open spec fn frame(g: GameState, w: WorldView, input: FrameInput, x: i64, y: i64) -> (
    GameState,
    WorldView,
) {
    let (g1, w1) = after_hits(g, w, input.events@);
    let (g2, w2) = after_timer(g1, w1, input.delta_us, x, y);
    let (g3, w3) = after_keys(g2, w2, input);
    after_click(g3, w3, input)
}

/// The player sprites of `s` can move `d` either way along both axes.
pub open spec fn player_fits(s: Seq<SpriteView>, d: int) -> bool {
    forall|i: int|
        0 <= i < s.len() && s[i].0 == "player"@ ==> i64::MIN + d <= s[i].1 <= i64::MAX - d
            && i64::MIN + d <= s[i].2 <= i64::MAX - d
}

/// What a frame may be handed: counters and positions stay in range.
pub open spec fn frame_ok(g: GameState, w: WorldView, input: FrameInput) -> bool {
    &&& g.wf()
    &&& g.current_score + input.events@.len() <= u64::MAX
    &&& g.enemy_index + 2 <= u64::MAX
    &&& input.delta_us <= MAX_DELTA_US
    &&& player_fits(w.sprites, frame_distance(input.delta_us))
}

/// Relies on `rand::Rng::gen_range` over `thread_rng()`: a value in
/// `low..high`, drawn at random.
#[verifier::external_body]
fn random_in(low: i64, high: i64) -> (r: i64)
    requires
        low < high,
    ensures
        low <= r < high,
{
    rand::thread_rng().gen_range(low..high)
}

/// Scores each collision that begins and involves the player: one point,
/// new score text, new high score (and its text) on a record, the other
/// sprites of the pair removed, an impact sound. Other events are ignored.
pub fn handle_collision_events(world: &mut World, state: &mut GameState, events: &Vec<CollisionEvent>)
    requires
        old(state).wf(),
        old(state).current_score + events@.len() <= u64::MAX,
    ensures
        final(state).wf(),
        (*final(state), final(world)@) == after_hits(*old(state), old(world)@, events@),
        final(state).current_score == old(state).current_score + hit_count(events@),
{
    let ghost g0 = *state;
    let ghost w0 = world@;
    let n = events.len();
    let mut i: usize = 0;
    while i < n
        invariant
            n == events@.len(),
            i <= n,
            g0.current_score + n <= u64::MAX,
            state.wf(),
            (*state, world@) == after_hits(g0, w0, events@.take(i as int)),
            state.current_score == g0.current_score + hit_count(events@.take(i as int)),
            hit_count(events@.take(i as int)) <= i,
        decreases n - i,
    {
        let e = &events[i];
        assert(events@.take(i + 1).drop_last() =~= events@.take(i as int));
        assert(events@.take(i + 1).last() == *e);
        let hit = e.state == CollisionState::Begin && (starts_with(e.first.as_str(), "player")
            || starts_with(e.second.as_str(), "player"));
        if hit {
            state.current_score = state.current_score + 1;
            world.score_text = score_text(state.current_score);
            if state.current_score > state.high_score {
                state.high_score = state.current_score;
                world.high_score_text = high_score_text(state.high_score);
            }
            if !starts_with(e.first.as_str(), "player") {
                world.scene.remove(&e.first);
            }
            if !starts_with(e.second.as_str(), "player") {
                world.scene.remove(&e.second);
            }
            world.sounds.push(Sound::Impact);
        }
        i = i + 1;
    }
    assert(events@.take(n as int) =~= events@);
}

/// Creates the enemy `enemy_<counter>` at (`x`, `y`), collidable, and
/// advances the counter.
pub fn spawn_enemy(world: &mut World, state: &mut GameState, x: i64, y: i64)
    requires
        old(state).enemy_index < u64::MAX,
    ensures
        (*final(state), final(world)@) == spawned(*old(state), old(world)@, x, y),
{
    let label = enemy_label(state.enemy_index);
    world.scene.add(Sprite { label, x, y, collision: true });
    state.enemy_index = state.enemy_index + 1;
}

/// Advances the spawn countdown by `delta_us`; when it runs out, creates an
/// enemy at (`x`, `y`).
pub fn handle_spawn_timer(world: &mut World, state: &mut GameState, delta_us: u64, x: i64, y: i64)
    requires
        old(state).wf(),
        old(state).enemy_index < u64::MAX,
    ensures
        final(state).wf(),
        (*final(state), final(world)@) == after_timer(*old(state), old(world)@, delta_us, x, y),
{
    let fired = state.spawn_timer.tick(delta_us);
    if fired {
        spawn_enemy(world, state, x, y);
    }
}

/// Moves the player by `MOVEMENT_SPEED` times the frame time along each held
/// direction (opposite keys cancel, diagonals add up). While the reset key
/// is held: the score text is rewritten with the score before the reset,
/// every sprite whose identifier starts with `enemy` is removed, and the
/// score and the counter go to zero; the high score stays.
pub fn handle_keyboard_events(world: &mut World, state: &mut GameState, input: &FrameInput)
    requires
        old(state).wf(),
        input.delta_us <= MAX_DELTA_US,
        player_fits(old(world)@.sprites, frame_distance(input.delta_us)),
    ensures
        final(state).wf(),
        (*final(state), final(world)@) == after_keys(*old(state), old(world)@, *input),
{
    let d: i64 = (MOVEMENT_SPEED * input.delta_us) as i64;
    let mut dx: i64 = 0;
    let mut dy: i64 = 0;
    if input.right {
        dx = dx + d;
    }
    if input.left {
        dx = dx - d;
    }
    if input.up {
        dy = dy + d;
    }
    if input.down {
        dy = dy - d;
    }
    let player = String::from_str("player");
    world.scene.translate(&player, dx, dy);
    if input.reset {
        world.score_text = score_text(state.current_score);
        world.scene.remove_prefixed("enemy");
        state.current_score = 0;
        state.enemy_index = 0;
    }
}

/// On a press of the left button with the pointer over the field, creates an
/// enemy under the pointer and plays the click sound.
pub fn handle_mouse(world: &mut World, state: &mut GameState, input: &FrameInput)
    requires
        old(state).enemy_index < u64::MAX,
    ensures
        (*final(state), final(world)@) == after_click(*old(state), old(world)@, *input),
{
    if input.mouse_pressed {
        if let Some((x, y)) = input.mouse_location {
            spawn_enemy(world, state, x, y);
            world.sounds.push(Sound::Click);
        }
    }
}

/// One frame: collisions, the spawn countdown (its enemy at (`x`, `y`)),
/// movement and reset, then a click.
pub fn game_logic_at(world: &mut World, state: &mut GameState, input: &FrameInput, x: i64, y: i64)
    requires
        frame_ok(*old(state), old(world)@, *input),
    ensures
        final(state).wf(),
        (*final(state), final(world)@) == frame(*old(state), old(world)@, *input, x, y),
{
    let ghost g0 = *state;
    let ghost w0 = world@;
    handle_collision_events(world, state, &input.events);
    proof {
        lemma_player_fits_hits(g0, w0, input.events@, frame_distance(input.delta_us));
        lemma_hits_keep_counter(g0, w0, input.events@);
        lemma_player_fits_spawn(
            state.enemy_index as nat,
            world@.sprites,
            frame_distance(input.delta_us),
            x,
            y,
        );
    }
    handle_spawn_timer(world, state, input.delta_us, x, y);
    handle_keyboard_events(world, state, input);
    handle_mouse(world, state, input);
}

/// One frame; a timed enemy, if the countdown runs out, appears at a random
/// point of the spawn rectangle.
pub fn game_logic(world: &mut World, state: &mut GameState, input: &FrameInput)
    requires
        frame_ok(*old(state), old(world)@, *input),
    ensures
        final(state).wf(),
        *final(state) == crate::laws::next_state(*old(state), *input),
        exists|x: i64, y: i64|
            -SPAWN_X_LIMIT <= x < SPAWN_X_LIMIT && -SPAWN_Y_LIMIT <= y < SPAWN_Y_LIMIT && (
            *final(state),
            final(world)@,
        ) == frame(*old(state), old(world)@, *input, x, y),
{
    let x = random_in(-SPAWN_X_LIMIT, SPAWN_X_LIMIT);
    let y = random_in(-SPAWN_Y_LIMIT, SPAWN_Y_LIMIT);
    proof {
        crate::laws::lemma_frame_state(*state, world@, *input, x, y);
    }
    game_logic_at(world, state, input, x, y);
}

proof fn lemma_player_fits_without(s: Seq<SpriteView>, label: Seq<char>, d: int)
    requires
        player_fits(s, d),
    ensures
        player_fits(without_label(s, label), d),
    decreases s.len(),
{
    reveal(Seq::filter);
    if s.len() > 0 {
        assert(player_fits(s.drop_last(), d)) by {
            assert forall|i: int| 0 <= i < s.drop_last().len() implies #[trigger] s.drop_last()[i]
                == s[i] by {}
        }
        lemma_player_fits_without(s.drop_last(), label, d);
        assert(s.last() == s[s.len() - 1]);
    }
}

proof fn lemma_player_fits_hits(g: GameState, w: WorldView, events: Seq<CollisionEvent>, d: int)
    requires
        player_fits(w.sprites, d),
    ensures
        player_fits(after_hits(g, w, events).1.sprites, d),
    decreases events.len(),
{
    if events.len() > 0 {
        lemma_player_fits_hits(g, w, events.drop_last(), d);
        let w1 = after_hits(g, w, events.drop_last()).1;
        let e = events.last();
        lemma_player_fits_without(w1.sprites, e.first@, d);
        let s1 = remove_unless_player(w1.sprites, e.first@);
        lemma_player_fits_without(s1, e.second@, d);
    }
}

proof fn lemma_player_fits_spawn(n: nat, s: Seq<SpriteView>, d: int, x: i64, y: i64)
    requires
        player_fits(s, d),
    ensures
        player_fits(with_sprite(s, (enemy_label_of(n), x, y, true)), d),
{
    let label = enemy_label_of(n);
    lemma_player_fits_without(s, label, d);
    reveal_strlit("player");
    reveal_strlit("enemy_");
    assert(label[0] == "enemy_"@[0]);
    assert(label != "player"@);
    let r = with_sprite(s, (label, x, y, true));
    let f = without_label(s, label);
    assert forall|i: int| 0 <= i < r.len() && #[trigger] r[i].0 == "player"@ implies i64::MIN + d
        <= r[i].1 <= i64::MAX - d && i64::MIN + d <= r[i].2 <= i64::MAX - d by {
        assert(i < r.len() - 1);
        assert(r[i] == f[i]);
        assert(player_fits(f, d));
        assert(f[i].0 == "player"@);
    }
}

/// Collisions change the scores only: the counter and the countdown stay.
proof fn lemma_hits_keep_counter(g: GameState, w: WorldView, events: Seq<CollisionEvent>)
    ensures
        after_hits(g, w, events).0.enemy_index == g.enemy_index,
        after_hits(g, w, events).0.spawn_timer == g.spawn_timer,
    decreases events.len(),
{
    if events.len() > 0 {
        lemma_hits_keep_counter(g, w, events.drop_last());
    }
}

} // verus!
