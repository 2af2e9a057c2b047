use snake::{
    free_cells, generate_random_position, occupied, Arena, DirectionKeys, FoodEvent, Game,
    GameOverEvent, GrowthEvent, LatestState, Position, SnakeState,
};

fn game_with(
    arena: Arena,
    heading: SnakeState,
    segments: Vec<Position>,
    food: Option<Position>,
) -> Game {
    Game {
        arena,
        latest_state: LatestState(heading),
        head_state: heading,
        segments,
        food,
        last_tail_position: None,
    }
}

const ALL: [SnakeState; 4] = [
    SnakeState::Left,
    SnakeState::Right,
    SnakeState::Down,
    SnakeState::Up,
];

#[test]
fn opposite_of_each_direction() {
    assert_eq!(LatestState::get_opposite(SnakeState::Left), SnakeState::Right);
    assert_eq!(LatestState::get_opposite(SnakeState::Right), SnakeState::Left);
    assert_eq!(LatestState::get_opposite(SnakeState::Up), SnakeState::Down);
    assert_eq!(LatestState::get_opposite(SnakeState::Down), SnakeState::Up);
    for d in ALL {
        assert_eq!(LatestState::get_opposite(LatestState::get_opposite(d)), d);
    }
}

#[test]
fn reversal_request_is_dropped() {
    for head in ALL {
        for pending in ALL {
            let mut s = LatestState(pending);
            s.switch(LatestState::get_opposite(head), head);
            assert_eq!(s, LatestState(pending));
        }
    }
}

#[test]
fn turn_request_is_accepted() {
    let mut s = LatestState(SnakeState::Right);
    s.switch(SnakeState::Up, SnakeState::Right);
    assert_eq!(s.0, SnakeState::Up);
    s.switch(SnakeState::Right, SnakeState::Right);
    assert_eq!(s.0, SnakeState::Right);
}

#[test]
fn last_accepted_key_wins() {
    let mut g = Game::new(Arena(15, 15));
    g.update_latest_state(DirectionKeys { left: true, right: false, up: true, down: true });
    // Left reverses the head (Right) and is dropped; Up then Down are accepted.
    assert_eq!(g.latest_state.0, SnakeState::Down);
    assert_eq!(g.head_state, SnakeState::Right);
    g.update_latest_state(DirectionKeys { left: false, right: false, up: false, down: false });
    assert_eq!(g.latest_state.0, SnakeState::Down);
}

#[test]
fn position_sub_and_step() {
    assert_eq!(Position(7, 7).sub(Position(1, 0)), Position(6, 7));
    assert_eq!(Position(3, -2).sub(Position(-4, 5)), Position(7, -7));
    assert_eq!(Position(4, 4).step(SnakeState::Left), Position(3, 4));
    assert_eq!(Position(4, 4).step(SnakeState::Right), Position(5, 4));
    assert_eq!(Position(4, 4).step(SnakeState::Up), Position(4, 5));
    assert_eq!(Position(4, 4).step(SnakeState::Down), Position(4, 3));
}

#[test]
fn arena_center_and_bounds() {
    let a = Arena(15, 15);
    assert_eq!(a.center(), Position(7, 7));
    assert!(a.contains(Position(0, 0)));
    assert!(a.contains(Position(14, 14)));
    assert!(!a.contains(Position(-1, 3)));
    assert!(!a.contains(Position(3, -1)));
    assert!(!a.contains(Position(15, 3)));
    assert!(!a.contains(Position(3, 15)));
    assert_eq!(Arena(4, 7).center(), Position(2, 3));
}

#[test]
fn occupied_finds_members_only() {
    let cells = vec![Position(1, 2), Position(3, 4)];
    assert!(occupied(&cells, Position(3, 4)));
    assert!(!occupied(&cells, Position(4, 3)));
    assert!(!occupied(&Vec::new(), Position(0, 0)));
}

#[test]
fn free_cells_in_column_major_order() {
    let taken = vec![Position(0, 1), Position(1, 0), Position(5, 5)];
    let cells = free_cells(&Arena(2, 3), &taken);
    assert_eq!(
        cells,
        vec![Position(0, 0), Position(0, 2), Position(1, 1), Position(1, 2)]
    );
    assert_eq!(free_cells(&Arena(0, 4), &Vec::new()), Vec::new());
}

#[test]
fn random_position_avoids_taken_cells() {
    let arena = Arena(3, 3);
    let mut taken = Vec::new();
    for x in 0..3 {
        for y in 0..3 {
            if (x, y) != (2, 1) {
                taken.push(Position(x, y));
            }
        }
    }
    for _ in 0..50 {
        assert_eq!(generate_random_position(&arena, &taken), Some(Position(2, 1)));
    }
    taken.push(Position(2, 1));
    assert_eq!(generate_random_position(&arena, &taken), None);
}

#[test]
fn random_position_stays_in_arena() {
    let arena = Arena(4, 2);
    let taken = vec![Position(0, 0), Position(3, 1)];
    for _ in 0..100 {
        let p = generate_random_position(&arena, &taken).unwrap();
        assert!(arena.contains(p));
        assert!(!taken.contains(&p));
    }
}

#[test]
fn new_game_layout() {
    let g = Game::new(Arena(15, 15));
    assert_eq!(g.segments, vec![Position(7, 7), Position(6, 7)]);
    assert_eq!(g.latest_state, LatestState(SnakeState::Right));
    assert_eq!(g.head_state, SnakeState::Right);
    assert_eq!(g.last_tail_position, None);
    let food = g.food.unwrap();
    assert!(g.arena.contains(food));
    assert!(!g.segments.contains(&food));
}

#[test]
fn one_tick_moves_head_and_shifts_body() {
    let mut g = game_with(
        Arena(15, 15),
        SnakeState::Up,
        vec![Position(5, 5), Position(5, 4), Position(4, 4), Position(4, 3)],
        None,
    );
    let ev = g.move_snake();
    assert_eq!(ev, None);
    assert_eq!(
        g.segments,
        vec![Position(5, 6), Position(5, 5), Position(5, 4), Position(4, 4)]
    );
    assert_eq!(g.last_tail_position, Some(Position(4, 3)));
    assert_eq!(g.head_state, SnakeState::Up);
}

#[test]
fn pending_heading_is_committed_on_move() {
    let mut g = game_with(Arena(15, 15), SnakeState::Right, vec![Position(7, 7), Position(6, 7)], None);
    g.latest_state = LatestState(SnakeState::Down);
    let ev = g.tick();
    assert_eq!(ev.game_over, None);
    assert_eq!(g.head_state, SnakeState::Down);
    assert_eq!(g.segments, vec![Position(7, 6), Position(7, 7)]);
}

#[test]
fn self_collision_ends_game() {
    // The head at (5,5) turns left into (4,5), held by the fourth segment.
    let body = vec![
        Position(5, 5),
        Position(5, 6),
        Position(4, 6),
        Position(4, 5),
        Position(4, 4),
    ];
    let mut g = game_with(Arena(15, 15), SnakeState::Down, body, None);
    g.latest_state = LatestState(SnakeState::Left);
    assert_eq!(g.move_snake(), Some(GameOverEvent));
}

#[test]
fn moving_into_old_tail_cell_is_a_collision() {
    // The pre-move snapshot holds the tail cell, so entering it ends the game.
    let body = vec![Position(5, 5), Position(5, 6), Position(4, 6), Position(4, 5)];
    let mut g = game_with(Arena(15, 15), SnakeState::Left, body, None);
    assert_eq!(g.move_snake(), Some(GameOverEvent));
}

#[test]
fn boundary_collisions() {
    let cases = [
        (Position(0, 7), Position(1, 7), SnakeState::Left),
        (Position(7, 0), Position(7, 1), SnakeState::Down),
        (Position(14, 7), Position(13, 7), SnakeState::Right),
        (Position(7, 14), Position(7, 13), SnakeState::Up),
    ];
    for (head, tail, d) in cases {
        let mut g = game_with(Arena(15, 15), d, vec![head, tail], None);
        assert_eq!(g.move_snake(), Some(GameOverEvent));
    }
    let mut g = game_with(Arena(15, 15), SnakeState::Right, vec![Position(13, 7), Position(12, 7)], None);
    assert_eq!(g.move_snake(), None);
}

#[test]
fn eating_raises_growth_and_food() {
    let mut g = game_with(Arena(15, 15), SnakeState::Right, vec![Position(8, 7), Position(7, 7)], Some(Position(8, 7)));
    assert_eq!(g.snake_eat(), (Some(GrowthEvent), Some(FoodEvent)));
    assert_eq!(g.food, None);
    let mut h = game_with(Arena(15, 15), SnakeState::Right, vec![Position(8, 7), Position(7, 7)], Some(Position(9, 7)));
    assert_eq!(h.snake_eat(), (None, None));
    assert_eq!(h.food, Some(Position(9, 7)));
}

#[test]
fn growth_appends_at_last_tail() {
    let mut g = game_with(Arena(15, 15), SnakeState::Right, vec![Position(8, 7), Position(7, 7)], None);
    g.last_tail_position = Some(Position(6, 7));
    g.grow_snake(None);
    assert_eq!(g.segments.len(), 2);
    g.grow_snake(Some(GrowthEvent));
    assert_eq!(g.segments, vec![Position(8, 7), Position(7, 7), Position(6, 7)]);
}

#[test]
fn food_placement_avoids_the_snake() {
    // A 2x2 arena with three cells held: the food must go to the fourth.
    for _ in 0..30 {
        let mut g = game_with(
            Arena(2, 2),
            SnakeState::Up,
            vec![Position(0, 0), Position(1, 0), Position(1, 1)],
            None,
        );
        g.spawn_food(Some(FoodEvent));
        assert_eq!(g.food, Some(Position(0, 1)));
    }
    let mut g = game_with(Arena(1, 2), SnakeState::Up, vec![Position(0, 0), Position(0, 1)], None);
    g.spawn_food(Some(FoodEvent));
    assert_eq!(g.food, None);
    let mut h = game_with(Arena(5, 5), SnakeState::Up, vec![Position(0, 0)], Some(Position(3, 3)));
    h.spawn_food(None);
    assert_eq!(h.food, Some(Position(3, 3)));
}

#[test]
fn reset_is_the_same_whatever_came_before() {
    let mut a = game_with(
        Arena(15, 15),
        SnakeState::Up,
        vec![Position(1, 1), Position(1, 0), Position(2, 0)],
        Some(Position(9, 9)),
    );
    a.last_tail_position = Some(Position(3, 0));
    let mut b = Game::new(Arena(15, 15));
    b.latest_state = LatestState(SnakeState::Down);
    assert_eq!(a.game_over(Some(GameOverEvent)), Some(FoodEvent));
    assert_eq!(b.game_over(Some(GameOverEvent)), Some(FoodEvent));
    for g in [&a, &b] {
        assert_eq!(g.segments, vec![Position(7, 7), Position(6, 7)]);
        assert_eq!(g.latest_state, LatestState(SnakeState::Right));
        assert_eq!(g.head_state, SnakeState::Right);
        assert_eq!(g.food, None);
        assert_eq!(g.last_tail_position, None);
    }
    let mut c = Game::new(Arena(15, 15));
    let before = c.clone();
    assert_eq!(c.game_over(None), None);
    assert_eq!(c.segments, before.segments);
    assert_eq!(c.food, before.food);
}

#[test]
fn run_to_the_right_wall_ends_game() {
    let mut g = game_with(Arena(15, 15), SnakeState::Right, vec![Position(7, 7), Position(6, 7)], None);
    for step in 1..=7 {
        let ev = g.tick();
        assert_eq!(ev.game_over, None);
        assert_eq!(g.segments[0], Position(7 + step, 7));
        assert_eq!(g.segments.len(), 2);
    }
    let ev = g.tick();
    assert_eq!(ev.game_over, Some(GameOverEvent));
    assert_eq!(ev.food, Some(FoodEvent));
    assert_eq!(g.segments, vec![Position(7, 7), Position(6, 7)]);
    assert_eq!(g.head_state, SnakeState::Right);
    let food = g.food.unwrap();
    assert!(g.arena.contains(food));
    assert!(!g.segments.contains(&food));
}

#[test]
fn eating_food_grows_snake() {
    let mut g = game_with(Arena(15, 15), SnakeState::Right, vec![Position(7, 7), Position(6, 7)], Some(Position(8, 7)));
    let ev = g.tick();
    assert_eq!(ev.growth, Some(GrowthEvent));
    assert_eq!(ev.food, Some(FoodEvent));
    assert_eq!(ev.game_over, None);
    assert_eq!(g.segments, vec![Position(8, 7), Position(7, 7), Position(6, 7)]);
    let food = g.food.unwrap();
    assert!(g.arena.contains(food));
    assert!(!g.segments.contains(&food));
}

#[test]
fn tick_without_food_keeps_length() {
    let mut g = game_with(Arena(15, 15), SnakeState::Right, vec![Position(7, 7), Position(6, 7)], Some(Position(0, 0)));
    let ev = g.tick();
    assert_eq!(ev.growth, None);
    assert_eq!(ev.food, None);
    assert_eq!(g.food, Some(Position(0, 0)));
    assert_eq!(g.segments, vec![Position(8, 7), Position(7, 7)]);
    assert_eq!(g.last_tail_position, Some(Position(6, 7)));
}
