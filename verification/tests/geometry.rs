use snake_game::{Direction, World};

fn world_at(width: usize, head: usize) -> World {
    World::new(width, head)
}

fn step(width: usize, head: usize, direction: Direction) -> usize {
    world_at(width, head).gen_next_snake_cell(&direction).0
}

#[test]
fn step_inside_the_board_moves_by_one_cell_or_one_row() {
    assert_eq!(step(8, 20, Direction::Up), 12);
    assert_eq!(step(8, 20, Direction::Down), 28);
    assert_eq!(step(8, 20, Direction::Left), 19);
    assert_eq!(step(8, 20, Direction::Right), 21);
}

#[test]
fn step_up_from_the_first_row_wraps_to_the_last_row() {
    assert_eq!(step(8, 2, Direction::Up), 58);
    assert_eq!(step(8, 7, Direction::Up), 63);
    assert_eq!(step(3, 2, Direction::Up), 8);
}

#[test]
fn step_down_from_the_last_row_wraps_to_the_first_row() {
    assert_eq!(step(8, 58, Direction::Down), 2);
    assert_eq!(step(8, 63, Direction::Down), 7);
    assert_eq!(step(8, 56, Direction::Down), 0);
    assert_eq!(step(8, 55, Direction::Down), 63);
}

#[test]
fn step_left_from_the_first_column_wraps_within_the_row() {
    assert_eq!(step(8, 16, Direction::Left), 23);
    assert_eq!(step(8, 56, Direction::Left), 63);
    assert_eq!(step(8, 8, Direction::Left), 15);
}

#[test]
fn step_right_from_the_last_column_wraps_within_the_row() {
    assert_eq!(step(8, 23, Direction::Right), 16);
    assert_eq!(step(8, 63, Direction::Right), 56);
    assert_eq!(step(8, 7, Direction::Right), 0);
}

#[test]
fn sideways_steps_keep_the_row_and_vertical_steps_keep_the_column() {
    let width = 5;
    for head in 2..width * width {
        let world = world_at(width, head);
        let (row, col) = world.index_to_cell(head);
        for direction in [Direction::Left, Direction::Right] {
            let next = world.gen_next_snake_cell(&direction).0;
            assert!(next < width * width);
            assert_eq!(world.index_to_cell(next).0, row);
            assert_ne!(world.index_to_cell(next).1, col);
        }
        for direction in [Direction::Up, Direction::Down] {
            let next = world.gen_next_snake_cell(&direction).0;
            assert!(next < width * width);
            assert_eq!(world.index_to_cell(next).1, col);
            assert_ne!(world.index_to_cell(next).0, row);
        }
    }
}

#[test]
fn a_step_and_the_opposite_step_return_to_the_start() {
    let width = 6;
    let pairs = [
        (Direction::Up, Direction::Down),
        (Direction::Down, Direction::Up),
        (Direction::Left, Direction::Right),
        (Direction::Right, Direction::Left),
    ];
    for head in 2..width * width {
        for (there, back) in pairs {
            let mid = step(width, head, there);
            if mid >= 2 {
                assert_eq!(step(width, mid, back), head);
            }
        }
    }
}

#[test]
fn the_inverse_holds_across_the_edges() {
    assert_eq!(step(8, step(8, 3, Direction::Up), Direction::Down), 3);
    assert_eq!(step(8, step(8, 60, Direction::Down), Direction::Up), 60);
    assert_eq!(step(8, step(8, 24, Direction::Left), Direction::Right), 24);
    assert_eq!(step(8, step(8, 31, Direction::Right), Direction::Left), 31);
}

#[test]
fn index_and_row_column_convert_both_ways() {
    let world = world_at(8, 20);
    assert_eq!(world.index_to_cell(20), (2, 4));
    assert_eq!(world.index_to_cell(0), (0, 0));
    assert_eq!(world.index_to_cell(63), (7, 7));
    assert_eq!(world.cell_to_index(2, 4), 20);
    assert_eq!(world.cell_to_index(7, 7), 63);
    for index in 0..64 {
        let (row, col) = world.index_to_cell(index);
        assert_eq!(world.cell_to_index(row, col), index);
    }
}
