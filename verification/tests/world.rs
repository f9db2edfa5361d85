use snake_game::{Direction, GameStatus, SnakeCell, World};

fn cells(world: &World) -> Vec<usize> {
    world.snake_cells().iter().map(|cell| cell.0).collect()
}

fn started(width: usize, spawn: usize, reward: usize) -> World {
    let mut world = World::new(width, spawn);
    assert!(world.place_reward(reward));
    world.start_game();
    world
}

#[test]
fn a_new_world_has_a_three_cell_snake_and_no_status() {
    let world = World::new(8, 20);
    assert_eq!(cells(&world), vec![20, 19, 18]);
    assert_eq!(world.snake_length(), 3);
    assert_eq!(world.snake_head_index(), 20);
    assert_eq!(world.width(), 8);
    assert_eq!(world.game_status(), None);
    assert_eq!(world.reward_cell(), None);
    assert!(world.awaits_reward());
}

#[test]
fn a_new_snake_faces_down() {
    let mut world = started(8, 20, 0);
    world.update();
    assert_eq!(cells(&world), vec![28, 20, 19]);
}

#[test]
fn a_turn_that_is_no_reversal_is_accepted() {
    let mut world = started(8, 20, 0);
    assert_eq!(world.gen_next_snake_cell(&Direction::Up), SnakeCell(12));
    assert_eq!(world.snake_cells()[1], SnakeCell(19));
    world.change_snake_direction(Direction::Up);
    world.update();
    assert_eq!(world.snake_head_index(), 12);
    assert_eq!(cells(&world), vec![12, 20, 19]);
}

#[test]
fn a_turn_back_onto_the_neck_is_ignored() {
    let mut world = started(8, 20, 0);
    world.change_snake_direction(Direction::Left);
    world.update();
    assert_eq!(cells(&world), vec![28, 20, 19]);
}

#[test]
fn the_last_accepted_turn_counts() {
    let mut world = started(8, 20, 0);
    world.change_snake_direction(Direction::Up);
    world.change_snake_direction(Direction::Right);
    world.update();
    assert_eq!(cells(&world), vec![21, 20, 19]);
}

#[test]
fn start_game_puts_the_game_in_progress() {
    let mut world = World::new(8, 20);
    world.start_game();
    assert_eq!(world.game_status(), Some(GameStatus::Played));
    world.start_game();
    assert_eq!(world.game_status(), Some(GameStatus::Played));
}

#[test]
fn status_labels() {
    let mut world = World::new(2, 3);
    assert_eq!(world.game_status_info(), "None!");
    assert!(world.place_reward(0));
    world.start_game();
    assert_eq!(world.game_status_info(), "You Playing!");
    world.update();
    world.update();
    assert_eq!(world.game_status(), Some(GameStatus::Lost));
    assert_eq!(world.game_status_info(), "You Lost!");
}

#[test]
fn the_label_of_a_won_game() {
    let world = won_on_the_smallest_board();
    assert_eq!(world.game_status_info(), "You Won!");
}

#[test]
fn a_reward_on_the_snake_is_refused() {
    let mut world = World::new(8, 20);
    for taken in [20, 19, 18] {
        assert!(!world.place_reward(taken));
        assert_eq!(world.reward_cell(), None);
        assert!(world.awaits_reward());
    }
}

#[test]
fn a_reward_off_the_board_is_refused() {
    let mut world = World::new(8, 20);
    assert!(!world.place_reward(64));
    assert!(!world.place_reward(usize::MAX));
    assert_eq!(world.reward_cell(), None);
    assert!(world.place_reward(63));
    assert_eq!(world.reward_cell(), Some(63));
}

#[test]
fn a_second_reward_is_refused() {
    let mut world = World::new(8, 20);
    assert!(world.place_reward(5));
    assert!(!world.awaits_reward());
    assert!(!world.place_reward(6));
    assert_eq!(world.reward_cell(), Some(5));
}

#[test]
fn gen_reward_cell_takes_free_cells_of_the_board_only() {
    let body = vec![SnakeCell(20), SnakeCell(19), SnakeCell(18)];
    assert_eq!(World::gen_reward_cell(64, &body, 0), Some(0));
    assert_eq!(World::gen_reward_cell(64, &body, 63), Some(63));
    assert_eq!(World::gen_reward_cell(64, &body, 17), Some(17));
    assert_eq!(World::gen_reward_cell(64, &body, 18), None);
    assert_eq!(World::gen_reward_cell(64, &body, 19), None);
    assert_eq!(World::gen_reward_cell(64, &body, 20), None);
    assert_eq!(World::gen_reward_cell(64, &body, 64), None);
    assert_eq!(World::gen_reward_cell(16, &body, 21), None);
}

#[test]
fn a_tick_off_the_reward_keeps_the_length() {
    let mut world = started(8, 20, 0);
    for _ in 0..10 {
        world.update();
        assert_eq!(world.snake_length(), 3);
        assert_eq!(world.reward_cell(), Some(0));
        assert_eq!(world.game_status(), Some(GameStatus::Played));
    }
    assert_eq!(cells(&world), vec![36, 28, 20]);
}

#[test]
fn eating_the_reward_grows_the_snake_by_one() {
    let mut world = started(8, 20, 28);
    world.update();
    assert_eq!(world.snake_head_index(), 28);
    assert_eq!(world.snake_length(), 4);
    assert_eq!(cells(&world), vec![28, 20, 19, 20]);
    assert_eq!(world.game_status(), Some(GameStatus::Played));
    assert_eq!(world.reward_cell(), None);
    assert!(world.awaits_reward());
}

#[test]
fn the_reward_moves_to_a_free_cell_after_it_was_eaten() {
    let mut world = started(8, 20, 28);
    world.update();
    for taken in [28, 20, 19] {
        assert!(!world.place_reward(taken));
    }
    assert!(world.place_reward(18));
    assert_eq!(world.reward_cell(), Some(18));
    assert_eq!(world.snake_length(), 4);
    assert_eq!(world.game_status(), Some(GameStatus::Played));
    world.update();
    assert_eq!(cells(&world), vec![36, 28, 20, 19]);
    assert_eq!(world.snake_length(), 4);
}

#[test]
fn the_reward_never_lies_under_the_snake() {
    let mut world = started(4, 5, 9);
    let turns = [
        Direction::Down,
        Direction::Right,
        Direction::Right,
        Direction::Up,
        Direction::Left,
        Direction::Down,
        Direction::Down,
        Direction::Right,
        Direction::Up,
        Direction::Up,
        Direction::Left,
        Direction::Down,
    ];
    let mut draw = 0;
    for round in 0..60 {
        if world.game_status() != Some(GameStatus::Played) {
            break;
        }
        world.change_snake_direction(turns[round % turns.len()]);
        world.update();
        while world.awaits_reward() {
            draw = (draw + 7) % 16;
            world.place_reward(draw);
        }
        if let Some(reward) = world.reward_cell() {
            assert!(reward < 16);
            assert!(!cells(&world).contains(&reward));
        }
        assert!(world.snake_length() <= 16);
    }
}

fn won_on_the_smallest_board() -> World {
    let mut world = started(2, 3, 0);
    world.update();
    assert_eq!(cells(&world), vec![1, 3, 2]);
    world.change_snake_direction(Direction::Left);
    world.update();
    assert_eq!(cells(&world), vec![0, 1, 3, 1]);
    assert!(world.awaits_reward());
    for taken in [0, 1, 3] {
        assert!(!world.place_reward(taken));
    }
    assert!(world.place_reward(2));
    world.change_snake_direction(Direction::Down);
    world.update();
    world
}

#[test]
fn eating_the_reward_with_a_full_length_snake_wins() {
    let world = won_on_the_smallest_board();
    assert_eq!(world.game_status(), Some(GameStatus::Won));
    assert_eq!(world.reward_cell(), None);
    assert!(!world.awaits_reward());
    assert_eq!(world.snake_length(), 4);
    assert_eq!(cells(&world), vec![2, 0, 1, 3]);
}

#[test]
fn a_won_game_takes_no_reward_and_stays_won() {
    let mut world = won_on_the_smallest_board();
    assert!(!world.place_reward(0));
    world.start_game();
    world.change_snake_direction(Direction::Up);
    assert_eq!(world.game_status(), Some(GameStatus::Won));
    assert_eq!(world.reward_cell(), None);
}

#[test]
fn running_into_the_body_loses() {
    let mut world = started(8, 20, 28);
    world.update();
    assert!(world.place_reward(36));
    world.update();
    assert_eq!(cells(&world), vec![36, 28, 20, 19, 28]);
    assert!(world.place_reward(0));
    world.change_snake_direction(Direction::Right);
    world.update();
    world.change_snake_direction(Direction::Up);
    world.update();
    assert_eq!(cells(&world), vec![29, 37, 36, 28, 20]);
    assert_eq!(world.game_status(), Some(GameStatus::Played));
    world.change_snake_direction(Direction::Left);
    world.update();
    assert_eq!(world.game_status(), Some(GameStatus::Lost));
    assert_eq!(cells(&world), vec![28, 29, 37, 36, 28]);
    assert_eq!(world.snake_length(), 5);
    assert_eq!(world.reward_cell(), Some(0));
}

#[test]
fn a_lost_game_stays_lost() {
    let mut world = started(2, 3, 0);
    world.update();
    world.update();
    assert_eq!(world.game_status(), Some(GameStatus::Lost));
    assert_eq!(cells(&world), vec![3, 1, 3]);
    assert_eq!(world.reward_cell(), Some(0));
    world.start_game();
    assert_eq!(world.game_status(), Some(GameStatus::Lost));
    world.change_snake_direction(Direction::Left);
    assert!(!world.place_reward(2));
    assert_eq!(world.game_status(), Some(GameStatus::Lost));
}

#[test]
fn a_tick_before_the_start_leaves_the_game_not_started() {
    let mut world = World::new(8, 20);
    assert!(world.place_reward(0));
    world.update();
    assert_eq!(world.game_status(), None);
    assert_eq!(cells(&world), vec![28, 20, 19]);
}

#[test]
fn the_tail_segment_vacates_its_cell_in_the_same_tick() {
    let mut world = started(2, 3, 0);
    world.update();
    assert_eq!(world.game_status(), Some(GameStatus::Played));
    assert_eq!(cells(&world), vec![1, 3, 2]);
}

#[test]
fn a_snake_that_spans_two_rows_is_accepted() {
    let world = World::new(8, 8);
    assert_eq!(cells(&world), vec![8, 7, 6]);
}
