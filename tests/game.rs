use car_dodge::game::{
    game_logic, game_logic_at, handle_collision_events, CollisionEvent, CollisionState, FrameInput,
    GameState, Sound, World, SPAWN_X_LIMIT, SPAWN_Y_LIMIT,
};
use car_dodge::labels::{enemy_label, high_score_text, score_text, starts_with};
use car_dodge::scene::{Scene, Sprite};
use car_dodge::timer::{SpawnTimer, SPAWN_PERIOD_US};

fn idle(delta_us: u64) -> FrameInput {
    FrameInput {
        events: Vec::new(),
        delta_us,
        up: false,
        down: false,
        left: false,
        right: false,
        reset: false,
        mouse_pressed: false,
        mouse_location: None,
    }
}

fn begin(a: &str, b: &str) -> CollisionEvent {
    CollisionEvent { state: CollisionState::Begin, first: a.to_string(), second: b.to_string() }
}

fn labels(w: &World) -> Vec<String> {
    w.scene.sprites.iter().map(|s| s.label.clone()).collect()
}

fn enemy_at(label: &str, x: i64, y: i64) -> Sprite {
    Sprite { label: label.to_string(), x, y, collision: true }
}

fn player(w: &World) -> (i64, i64) {
    let p = w.scene.sprites.iter().find(|s| s.label == "player").unwrap();
    (p.x, p.y)
}

/// Three player hits from a fresh start; returns the world and state.
fn scenario_a() -> (World, GameState) {
    let mut world = World::new();
    let mut state = GameState::new();
    for l in ["enemy_0", "enemy_1", "enemy_2"] {
        world.scene.add(enemy_at(l, 100, 100));
    }
    let mut input = idle(0);
    input.events = vec![
        begin("player", "enemy_0"),
        begin("enemy_1", "player"),
        begin("player", "enemy_2"),
    ];
    game_logic_at(&mut world, &mut state, &input, 0, 0);
    (world, state)
}

#[test]
fn three_hits_score_three() {
    let (world, state) = scenario_a();
    assert_eq!(state.current_score, 3);
    assert_eq!(state.high_score, 3);
    assert_eq!(world.score_text, "Score: 3");
    assert_eq!(world.high_score_text, "High Score: 3");
    assert_eq!(labels(&world), vec!["player".to_string()]);
    assert_eq!(world.sounds, vec![Sound::Impact, Sound::Impact, Sound::Impact]);
}

#[test]
fn three_and_a_half_seconds_spawn_three() {
    let mut world = World::new();
    let mut state = GameState::new();
    for _ in 0..350 {
        game_logic(&mut world, &mut state, &idle(10_000));
    }
    assert_eq!(state.enemy_index, 3);
    assert_eq!(labels(&world), vec!["player", "enemy_0", "enemy_1", "enemy_2"]);
    for s in world.scene.sprites.iter().skip(1) {
        assert!(-SPAWN_X_LIMIT <= s.x && s.x < SPAWN_X_LIMIT);
        assert!(-SPAWN_Y_LIMIT <= s.y && s.y < SPAWN_Y_LIMIT);
        assert!(s.collision);
    }
    assert_eq!(state.spawn_timer.elapsed_us, 500_000);
}

#[test]
fn reset_after_three_hits() {
    let (mut world, mut state) = scenario_a();
    world.scene.add(enemy_at("enemy_7", 5, 5));
    let mut input = idle(0);
    input.reset = true;
    game_logic_at(&mut world, &mut state, &input, 0, 0);
    assert_eq!(state.current_score, 0);
    assert_eq!(state.enemy_index, 0);
    assert_eq!(state.high_score, 3);
    assert_eq!(world.score_text, "Score: 3");
    assert_eq!(world.high_score_text, "High Score: 3");
    assert_eq!(labels(&world), vec!["player".to_string()]);
}

#[test]
fn reset_removes_enemy_spawned_by_timer_in_same_frame() {
    let mut world = World::new();
    let mut state = GameState::new();
    let mut input = idle(SPAWN_PERIOD_US);
    input.reset = true;
    game_logic_at(&mut world, &mut state, &input, 1, 2);
    assert_eq!(labels(&world), vec!["player".to_string()]);
    assert_eq!(state.enemy_index, 0);
}

#[test]
fn click_after_reset_in_same_frame_survives() {
    let mut world = World::new();
    let mut state = GameState::new();
    state.enemy_index = 9;
    let mut input = idle(0);
    input.reset = true;
    input.mouse_pressed = true;
    input.mouse_location = Some((7, -8));
    game_logic_at(&mut world, &mut state, &input, 0, 0);
    assert_eq!(labels(&world), vec!["player", "enemy_0"]);
    assert_eq!(state.enemy_index, 1);
    assert_eq!(world.sounds, vec![Sound::Click]);
}

#[test]
fn score_counts_hits_across_frames() {
    let mut world = World::new();
    let mut state = GameState::new();
    for n in 0..5u64 {
        let mut input = idle(1_000);
        input.events = vec![begin("player", &format!("enemy_{}", n))];
        game_logic_at(&mut world, &mut state, &input, 0, 0);
    }
    assert_eq!(state.current_score, 5);
    assert_eq!(world.score_text, "Score: 5");
}

#[test]
fn high_score_ratchets() {
    let mut world = World::new();
    let mut state = GameState::new();
    let mut two = idle(0);
    two.events = vec![begin("player", "a"), begin("player", "b")];
    game_logic_at(&mut world, &mut state, &two, 0, 0);
    let mut reset = idle(0);
    reset.reset = true;
    game_logic_at(&mut world, &mut state, &reset, 0, 0);
    let mut one = idle(0);
    one.events = vec![begin("player", "c")];
    game_logic_at(&mut world, &mut state, &one, 0, 0);
    assert_eq!(state.current_score, 1);
    assert_eq!(state.high_score, 2);
    assert_eq!(world.score_text, "Score: 1");
    assert_eq!(world.high_score_text, "High Score: 2");
    game_logic_at(&mut world, &mut state, &two, 0, 0);
    assert_eq!(state.current_score, 3);
    assert_eq!(state.high_score, 3);
    assert_eq!(world.high_score_text, "High Score: 3");
}

#[test]
fn spawned_identifiers_are_distinct() {
    let mut world = World::new();
    let mut state = GameState::new();
    for _ in 0..4 {
        let mut input = idle(SPAWN_PERIOD_US);
        input.mouse_pressed = true;
        input.mouse_location = Some((3, 4));
        game_logic_at(&mut world, &mut state, &input, 1, 1);
    }
    let mut l = labels(&world);
    assert_eq!(l.len(), 9);
    l.sort();
    l.dedup();
    assert_eq!(l.len(), 9);
    assert_eq!(state.enemy_index, 8);
}

#[test]
fn removing_absent_enemy_is_a_no_op() {
    let mut scene = Scene::new();
    scene.add(enemy_at("enemy_1", 1, 2));
    assert!(!scene.remove(&"enemy_9".to_string()));
    assert_eq!(scene.sprites.len(), 1);
    assert!(scene.remove(&"enemy_1".to_string()));
    assert!(!scene.remove(&"enemy_1".to_string()));
    assert!(scene.sprites.is_empty());
}

#[test]
fn hit_on_enemy_already_removed_still_scores() {
    let mut world = World::new();
    let mut state = GameState::new();
    world.scene.add(enemy_at("enemy_0", 0, 0));
    let events = vec![begin("player", "enemy_0"), begin("player", "enemy_0")];
    handle_collision_events(&mut world, &mut state, &events);
    assert_eq!(state.current_score, 2);
    assert_eq!(labels(&world), vec!["player".to_string()]);
}

#[test]
fn non_scoring_events_are_ignored() {
    let mut world = World::new();
    let mut state = GameState::new();
    world.scene.add(enemy_at("enemy_0", 0, 0));
    world.scene.add(enemy_at("enemy_1", 0, 0));
    let events = vec![
        CollisionEvent {
            state: CollisionState::End,
            first: "player".to_string(),
            second: "enemy_0".to_string(),
        },
        begin("enemy_0", "enemy_1"),
    ];
    handle_collision_events(&mut world, &mut state, &events);
    assert_eq!(state.current_score, 0);
    assert_eq!(labels(&world).len(), 3);
    assert!(world.sounds.is_empty());
    assert_eq!(world.score_text, "Score: 0");
}

#[test]
fn diagonal_movement_adds_up() {
    let mut world = World::new();
    let mut state = GameState::new();
    let mut input = idle(200_000);
    input.up = true;
    input.right = true;
    game_logic_at(&mut world, &mut state, &input, 0, 0);
    assert_eq!(player(&world), (50_000_000, 50_000_000));
    let mut back = idle(100_000);
    back.left = true;
    back.down = true;
    back.up = true;
    game_logic_at(&mut world, &mut state, &back, 0, 0);
    assert_eq!(player(&world), (25_000_000, 50_000_000));
}

#[test]
fn click_without_location_does_nothing() {
    let mut world = World::new();
    let mut state = GameState::new();
    let mut input = idle(0);
    input.mouse_pressed = true;
    game_logic_at(&mut world, &mut state, &input, 0, 0);
    assert_eq!(labels(&world), vec!["player".to_string()]);
    assert_eq!(state.enemy_index, 0);
    let mut moved = idle(0);
    moved.mouse_location = Some((1, 1));
    game_logic_at(&mut world, &mut state, &moved, 0, 0);
    assert_eq!(state.enemy_index, 0);
}

#[test]
fn click_spawns_under_pointer() {
    let mut world = World::new();
    let mut state = GameState::new();
    let mut input = idle(0);
    input.mouse_pressed = true;
    input.mouse_location = Some((-12, 34));
    game_logic_at(&mut world, &mut state, &input, 0, 0);
    let e = &world.scene.sprites[1];
    assert_eq!((e.label.as_str(), e.x, e.y, e.collision), ("enemy_0", -12, 34, true));
    assert_eq!(world.sounds, vec![Sound::Click]);
}

#[test]
fn long_frame_spawns_once() {
    let mut world = World::new();
    let mut state = GameState::new();
    game_logic_at(&mut world, &mut state, &idle(3_500_000), 9, 10);
    assert_eq!(state.enemy_index, 1);
    assert_eq!(state.spawn_timer.elapsed_us, 500_000);
    let e = &world.scene.sprites[1];
    assert_eq!((e.label.as_str(), e.x, e.y), ("enemy_0", 9, 10));
}

#[test]
fn timer_ticks() {
    let mut t = SpawnTimer::new(1_000_000);
    assert!(!t.tick(999_999));
    assert!(t.tick(1));
    assert_eq!(t.elapsed_us, 0);
    assert!(t.tick(2_300_000));
    assert_eq!(t.elapsed_us, 300_000);
    assert!(!t.tick(0));
}

#[test]
fn texts_and_labels() {
    assert_eq!(enemy_label(0), "enemy_0");
    assert_eq!(enemy_label(1234567), "enemy_1234567");
    assert_eq!(score_text(42), "Score: 42");
    assert_eq!(high_score_text(u64::MAX), "High Score: 18446744073709551615");
    assert!(starts_with("player_two", "player"));
    assert!(!starts_with("play", "player"));
    assert!(starts_with("x", ""));
}

#[test]
fn adding_same_identifier_replaces() {
    let mut scene = Scene::new();
    scene.add(enemy_at("enemy_0", 1, 1));
    scene.add(enemy_at("enemy_1", 2, 2));
    scene.add(enemy_at("enemy_0", 3, 3));
    let v: Vec<(String, i64)> = scene.sprites.iter().map(|s| (s.label.clone(), s.x)).collect();
    assert_eq!(v, vec![("enemy_1".to_string(), 2), ("enemy_0".to_string(), 3)]);
    assert!(scene.contains(&"enemy_0".to_string()));
    assert!(!scene.contains(&"enemy_2".to_string()));
}

#[test]
fn fresh_world_and_state() {
    let world = World::new();
    let state = GameState::default();
    assert_eq!(labels(&world), vec!["player".to_string()]);
    assert_eq!(world.score_text, "Score: 0");
    assert_eq!(world.high_score_text, "High Score: 0");
    assert_eq!((state.high_score, state.current_score, state.enemy_index), (0, 0, 0));
    assert_eq!(state.spawn_timer.period_us, SPAWN_PERIOD_US);
}

#[test]
fn timer_fires_once_per_period_over_uneven_frames() {
    let mut t = SpawnTimer::new(SPAWN_PERIOD_US);
    let deltas = [400_000u64, 700_000, 1_000_000, 50_000, 950_000, 300_000];
    let fired = deltas.iter().filter(|d| t.tick(**d)).count();
    let total: u64 = deltas.iter().sum();
    assert_eq!(fired as u64, total / SPAWN_PERIOD_US);
    assert_eq!(t.elapsed_us, total % SPAWN_PERIOD_US);
}
