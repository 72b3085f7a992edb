use snake_game::{draw_from_bytes, Direction, EntropyError, GameStatus, World};

/// The cell one step from `h` in direction `d` on a board of side `w`.
fn step(h: usize, w: usize, d: Direction) -> usize {
    match d {
        Direction::Right => {
            if (h + 1) % w == 0 {
                h + 1 - w
            } else {
                h + 1
            }
        }
        Direction::Left => {
            if h % w == 0 {
                h + w - 1
            } else {
                h - 1
            }
        }
        Direction::Down => (h + w) % (w * w),
        Direction::Up => {
            if h < w {
                w * w - w + h
            } else {
                h - w
            }
        }
    }
}

fn body(world: &World) -> Vec<usize> {
    (0..world.snake_len()).map(|i| world.snake_body_position(i)).collect()
}

/// The draw that puts the reward on `target` if this tick grows the snake
/// and moves its head to `new_head`.
fn draw_placing(world: &World, new_head: usize, target: usize) -> u64 {
    let occupied = body(world);
    let area = world.width() * world.width();
    let free: Vec<usize> = (0..area)
        .filter(|c| !occupied.contains(c) && *c != new_head)
        .collect();
    free.iter().position(|c| *c == target).unwrap_or(0) as u64
}

/// A started world with its head on `start` and the reward on the first
/// cell of the route `dirs`.
fn started_world(width: usize, start: usize, first: Direction) -> World {
    let target = step(start, width, first);
    let free: Vec<usize> = (0..width * width).filter(|c| *c != start).collect();
    let draw = free.iter().position(|c| *c == target).unwrap() as u64;
    let mut world = World::new_with_draw(width, start, draw);
    assert_eq!(world.get_reward_cell(), target);
    world.start_game();
    world
}

/// Runs one tick in direction `d`; if the snake grows, the reward goes to
/// the cell it reaches next in direction `then`.
fn tick(world: &mut World, d: Direction, then: Direction) {
    let w = world.width();
    world.change_direction(d);
    let next = step(world.snake_head(), w, d);
    let draw = draw_placing(world, next, step(next, w, then));
    world.update_with_draw(draw);
}

fn drive(world: &mut World, dirs: &[Direction]) {
    for i in 0..dirs.len() {
        let then = if i + 1 < dirs.len() { dirs[i + 1] } else { dirs[i] };
        tick(world, dirs[i], then);
    }
}

#[test]
fn new_world_state() {
    let world = World::new_with_draw(4, 5, 0);
    assert_eq!(world.width(), 4);
    assert_eq!(world.snake_head(), 5);
    assert_eq!(world.snake_len(), 1);
    assert_eq!(world.get_game_status(), GameStatus::NotStarted);
    assert_eq!(world.get_reward_cell(), 0);
}

#[test]
fn reward_draw_picks_among_free_cells() {
    assert_eq!(World::new_with_draw(4, 5, 4).get_reward_cell(), 4);
    assert_eq!(World::new_with_draw(4, 5, 5).get_reward_cell(), 6);
    assert_eq!(World::new_with_draw(4, 5, 14).get_reward_cell(), 15);
    assert_eq!(World::new_with_draw(4, 5, 15).get_reward_cell(), 0);
    assert_eq!(World::new_with_draw(4, 5, u64::MAX).get_reward_cell(), 0);
    for draw in 0..40u64 {
        let r = World::new_with_draw(4, 5, draw).get_reward_cell();
        assert!(r < 16);
        assert_ne!(r, 5);
    }
}

#[test]
fn new_with_random_reward() {
    let world: Result<World, EntropyError> = World::new(8, 10);
    let world = world.unwrap();
    assert_eq!(world.snake_head(), 10);
    assert_eq!(world.get_game_status(), GameStatus::NotStarted);
    assert!(world.get_reward_cell() < 64);
    assert_ne!(world.get_reward_cell(), 10);
}

#[test]
fn update_with_random_source_moves_head() {
    let mut world = World::new(8, 10).unwrap();
    world.start_game();
    assert_eq!(world.get_game_status(), GameStatus::Started);
    world.update().unwrap();
    assert_eq!(world.snake_head(), 11);
}

#[test]
fn moves_right_and_wraps_at_the_row_end() {
    let mut world = World::new_with_draw(4, 5, 0);
    world.start_game();
    assert_eq!(world.snake_head(), 5);
    world.update_with_draw(0);
    assert_eq!(world.snake_head(), 6);
    world.update_with_draw(0);
    assert_eq!(world.snake_head(), 7);
    world.update_with_draw(0);
    assert_eq!(world.snake_head(), 4);
    world.update_with_draw(0);
    assert_eq!(world.snake_head(), 5);
}

#[test]
fn wraps_on_every_edge() {
    let mut world = World::new_with_draw(4, 1, 0);
    world.start_game();
    world.change_direction(Direction::Up);
    world.update_with_draw(0);
    assert_eq!(world.snake_head(), 13);
    world.change_direction(Direction::Left);
    world.update_with_draw(0);
    assert_eq!(world.snake_head(), 12);
    world.update_with_draw(0);
    assert_eq!(world.snake_head(), 15);
    world.change_direction(Direction::Down);
    world.update_with_draw(0);
    assert_eq!(world.snake_head(), 3);
}

#[test]
fn square_loop_returns_to_start() {
    for start in 0..16 {
        let mut world = World::new_with_draw(4, start, 7);
        world.start_game();
        let route = [Direction::Right, Direction::Down, Direction::Left, Direction::Up];
        for d in route {
            world.change_direction(d);
            world.update_with_draw(3);
            assert_eq!(world.get_game_status(), GameStatus::Started);
        }
        assert_eq!(world.snake_head(), start);
    }
}

#[test]
fn reversal_is_ignored() {
    let mut world = World::new_with_draw(4, 5, 0);
    world.start_game();
    world.change_direction(Direction::Left);
    world.update_with_draw(0);
    assert_eq!(world.snake_head(), 6);
}

#[test]
fn second_turn_is_judged_by_tick_start_direction() {
    let mut world = World::new_with_draw(4, 5, 0);
    world.start_game();
    world.change_direction(Direction::Right);
    world.change_direction(Direction::Left);
    world.update_with_draw(0);
    assert_eq!(world.snake_head(), 6);

    let mut world = World::new_with_draw(4, 5, 0);
    world.start_game();
    world.change_direction(Direction::Up);
    world.change_direction(Direction::Down);
    world.update_with_draw(0);
    assert_eq!(world.snake_head(), 9);
}

#[test]
fn left_facing_snake_rejects_right_accepts_up_and_down() {
    let mut world = World::new_with_draw(4, 5, 0);
    world.start_game();
    world.change_direction(Direction::Down);
    world.update_with_draw(0);
    world.change_direction(Direction::Left);
    world.update_with_draw(0);
    assert_eq!(world.snake_head(), 8);

    world.change_direction(Direction::Right);
    world.update_with_draw(0);
    assert_eq!(world.snake_head(), 11);

    world.change_direction(Direction::Up);
    world.update_with_draw(0);
    assert_eq!(world.snake_head(), 7);

    world.change_direction(Direction::Left);
    world.update_with_draw(0);
    world.change_direction(Direction::Down);
    world.update_with_draw(0);
    assert_eq!(world.snake_head(), 10);
}

#[test]
fn growth_adds_one_segment_behind_the_body() {
    let mut world = started_world(4, 5, Direction::Right);
    world.update_with_draw(0);
    assert_eq!(world.snake_head(), 6);
    assert_eq!(world.snake_len(), 1);
    world.update_with_draw(0);
    assert_eq!(body(&world), vec![7, 6]);
    world.update_with_draw(0);
    assert_eq!(body(&world), vec![4, 7]);
}

#[test]
fn body_follows_the_head() {
    let mut world = started_world(4, 0, Direction::Right);
    let route = [Direction::Right; 6];
    drive(&mut world, &route);
    assert_eq!(body(&world), vec![2, 1, 0, 3]);
    world.change_direction(Direction::Down);
    world.update_with_draw(0);
    assert_eq!(body(&world), vec![6, 2, 1, 0]);
}

#[test]
fn regenerated_reward_avoids_the_body() {
    for draw in 0..30u64 {
        let mut world = started_world(4, 0, Direction::Right);
        drive(&mut world, &[Direction::Right; 5]);
        assert_eq!(world.snake_len(), 3);
        world.change_direction(Direction::Down);
        world.update_with_draw(draw);
        assert_eq!(world.snake_len(), 4);
        let r = world.get_reward_cell();
        assert!(r < 16);
        assert!(!body(&world).contains(&r));
    }
}

#[test]
fn full_board_but_one_finishes_the_game() {
    let mut cycle = Vec::new();
    for _ in 0..4 {
        cycle.extend_from_slice(&[
            Direction::Right,
            Direction::Right,
            Direction::Right,
            Direction::Down,
        ]);
    }
    let mut world = started_world(4, 0, Direction::Right);
    let mut ticks = 0;
    while world.get_game_status() == GameStatus::Started {
        let d = cycle[ticks % 16];
        let then = cycle[(ticks + 1) % 16];
        tick(&mut world, d, then);
        ticks += 1;
        assert!(ticks <= 40);
    }
    assert_eq!(world.get_game_status(), GameStatus::Finished);
    assert_eq!(world.snake_len(), 15);
    assert_eq!(ticks, 28);
}

#[test]
fn running_into_the_body_fails_the_game() {
    let mut world = started_world(4, 0, Direction::Right);
    let route = [
        Direction::Right,
        Direction::Right,
        Direction::Right,
        Direction::Down,
        Direction::Right,
        Direction::Right,
        Direction::Right,
        Direction::Down,
        Direction::Right,
        Direction::Down,
        Direction::Left,
    ];
    drive(&mut world, &route);
    assert_eq!(world.get_game_status(), GameStatus::Started);
    assert!(world.snake_len() >= 5);
    assert_eq!(world.snake_head(), 14);
    world.change_direction(Direction::Up);
    world.update_with_draw(0);
    assert_eq!(world.snake_head(), 10);
    assert_eq!(world.get_game_status(), GameStatus::Failed);
}

#[test]
fn body_position_past_the_tail_is_zero() {
    let world = World::new_with_draw(4, 5, 0);
    assert_eq!(world.snake_body_position(0), 5);
    assert_eq!(world.snake_body_position(1), 0);
    assert_eq!(world.snake_body_position(100), 0);
}

#[test]
fn many_turns_in_one_tick_never_reverse() {
    let mut world = World::new_with_draw(4, 5, 0);
    world.start_game();
    world.change_direction(Direction::Up);
    world.change_direction(Direction::Down);
    world.change_direction(Direction::Left);
    world.update_with_draw(0);
    assert_eq!(world.snake_head(), 9);

    world.change_direction(Direction::Left);
    world.change_direction(Direction::Up);
    world.change_direction(Direction::Right);
    world.update_with_draw(0);
    assert_eq!(world.snake_head(), 10);
}

#[test]
fn bytes_read_first_byte_highest() {
    assert_eq!(draw_from_bytes(&[0, 0, 0, 0, 0, 0, 0, 0]), 0);
    assert_eq!(draw_from_bytes(&[0, 0, 0, 0, 0, 0, 1, 2]), 258);
    assert_eq!(draw_from_bytes(&[1, 0, 0, 0, 0, 0, 0, 0]), 1u64 << 56);
    assert_eq!(
        draw_from_bytes(&[0x01, 0x23, 0x45, 0x67, 0x89, 0xab, 0xcd, 0xef]),
        0x0123_4567_89ab_cdef
    );
    assert_eq!(draw_from_bytes(&[0xff; 8]), u64::MAX);
}

#[test]
fn random_update_without_growth_keeps_the_reward() {
    let mut world = World::new_with_draw(4, 5, 0);
    world.start_game();
    world.update().unwrap();
    assert_eq!(world.snake_head(), 6);
    assert_eq!(world.get_reward_cell(), 0);
    assert_eq!(world.snake_len(), 1);
}

#[test]
fn random_update_with_growth_places_a_free_reward() {
    let mut world = started_world(4, 5, Direction::Right);
    world.update().unwrap();
    world.update().unwrap();
    assert_eq!(body(&world), vec![7, 6]);
    let r = world.get_reward_cell();
    assert!(r < 16);
    assert!(!body(&world).contains(&r));
}
