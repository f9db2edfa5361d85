//! The game as it runs: the snake as a vector of cells, and the world that
//! holds it with the board, the reward cell and the status.
//!
//! Each operation is held to the function of [`crate::model`] that it carries
//! out. The world draws no random numbers itself. When it needs a reward cell
//! it says so through [`World::awaits_reward`], and the caller offers cells
//! through [`World::place_reward`] until one is taken.

use crate::geometry::{
    cell_at, col_of, lemma_cell_of_row_col, lemma_row_col_of_cell, lemma_step_by_cases,
    lemma_step_on_board, on_board, row_of, step, Direction,
};
use crate::model::{
    laid_out, lemma_commands_keep_wf, lemma_initial_wf, lemma_next_head_on_board,
    lemma_tick_keeps_wf, GameStatus, WorldModel,
};
use vstd::prelude::*;

verus! {

/// One segment of the snake: the index of the cell on which it lies.
#[derive(PartialEq, Eq, Structural, Copy, Clone, Debug)]
pub struct SnakeCell(pub usize);

/// The cell indices that a run of segments holds, in order.
pub open spec fn cells_of(body: Seq<SnakeCell>) -> Seq<int> {
    Seq::new(body.len(), |i: int| body[i].0 as int)
}

/// The label that is shown for a status.
pub open spec fn status_label(status: Option<GameStatus>) -> Seq<char> {
    match status {
        Some(GameStatus::Won) => "You Won!"@,
        Some(GameStatus::Lost) => "You Lost!"@,
        Some(GameStatus::Played) => "You Playing!"@,
        None => "None!"@,
    }
}

/// Whether one of the segments of `body` from position `from` on lies on the
/// cell `index`.
fn holds_cell(body: &Vec<SnakeCell>, from: usize, index: usize) -> (found: bool)
    ensures
        found == exists|i: int| from <= i < body@.len() && body@[i].0 == index,
{
    let mut at: usize = from;
    while at < body.len()
        invariant
            from <= at,
            forall|i: int| from <= i < at && i < body@.len() ==> body@[i].0 != index,
        decreases body.len() - at,
    {
        if body[at].0 == index {
            return true;
        }
        at += 1;
    }
    false
}

/// The snake: its segments from head to tail, and the way it faces.
struct Snake {
    body: Vec<SnakeCell>,
    direction: Direction,
}

impl Snake {
    /// The cells of the snake, head first.
    spec fn cells(&self) -> Seq<int> {
        cells_of(self.body@)
    }

    /// A snake of `size` segments that faces down, its head on `spawn_index`
    /// and each further segment on the cell before the last one. The spawn
    /// cell must have `size - 1` cells before it.
    fn new(spawn_index: usize, size: usize) -> (snake: Snake)
        requires
            size <= spawn_index + 1,
        ensures
            snake.cells() == laid_out(spawn_index as int, size as int),
            snake.direction == Direction::Down,
    {
        let mut body: Vec<SnakeCell> = Vec::new();
        let mut i: usize = 0;
        while i < size
            invariant
                i <= size <= spawn_index + 1,
                body@.len() == i,
                forall|k: int| 0 <= k < i ==> body@[k].0 == spawn_index - k,
            decreases size - i,
        {
            body.push(SnakeCell(spawn_index - i));
            i += 1;
        }
        assert(cells_of(body@) =~= laid_out(spawn_index as int, size as int));
        Snake { body, direction: Direction::Down }
    }

    /// Moves the snake by one cell: the head goes to `head`, and every other
    /// segment to the cell of the one that was ahead of it.
    fn advance(&mut self, head: SnakeCell)
        requires
            old(self).body@.len() >= 1,
        ensures
            final(self).cells() == seq![head.0 as int] + old(self).cells().drop_last(),
            final(self).direction == old(self).direction,
    {
        let ghost before = self.body@;
        let mut i: usize = self.body.len() - 1;
        while i > 0
            invariant
                i < self.body@.len() == before.len(),
                self.direction == old(self).direction,
                forall|k: int| 0 <= k <= i ==> self.body@[k] == before[k],
                forall|k: int| i < k < before.len() ==> self.body@[k] == before[k - 1],
            decreases i,
        {
            let ahead = self.body[i - 1];
            self.body.set(i, ahead);
            i -= 1;
        }
        self.body.set(0, head);
        assert(cells_of(self.body@) =~= seq![head.0 as int] + cells_of(before).drop_last());
    }
}

/// A game: the board, the snake on it, the reward cell and the status.
pub struct World {
    width: usize,
    size: usize,
    reward_cell: Option<usize>,
    snake: Snake,
    next_cell: Option<SnakeCell>,
    status: Option<GameStatus>,
}

impl View for World {
    type V = WorldModel;

    closed spec fn view(&self) -> WorldModel {
        WorldModel {
            width: self.width as int,
            body: self.snake.cells(),
            direction: self.snake.direction,
            reward: match self.reward_cell {
                Some(cell) => Some(cell as int),
                None => None,
            },
            pending_head: match self.next_cell {
                Some(cell) => Some(cell.0 as int),
                None => None,
            },
            status: self.status,
        }
    }
}

impl World {
    /// The world is in a state that the game can reach, and knows the number
    /// of cells on its board.
    pub closed spec fn wf(&self) -> bool {
        self@.wf() && self.size == self.width * self.width
    }

    /// A world that is well formed stands for a state that the game can reach.
    pub proof fn lemma_wf(&self)
        requires
            self.wf(),
        ensures
            self@.wf(),
    {
    }

    /// A new game on a board of `width` by `width` cells. The snake has three
    /// segments, its head on `snake_index` and the others on the two cells
    /// before it, and faces down. The game is not started and awaits its
    /// first reward cell.
    ///
    /// The spawn cell must lie on the board and have two cells before it;
    /// whether those lie in the same row is left to the caller.
    pub fn new(width: usize, snake_index: usize) -> (world: World)
        requires
            2 <= snake_index < width * width <= usize::MAX,
        ensures
            world.wf(),
            world@ == WorldModel::initial(width as int, snake_index as int),
    {
        let size = width * width;
        let snake = Snake::new(snake_index, 3);
        proof {
            assert(0 < width) by (nonlinear_arith)
                requires
                    2 < width * width,
            ;
            lemma_initial_wf(width as int, snake_index as int);
        }
        World { width, size, reward_cell: None, snake, next_cell: None, status: None }
    }

    /// Decides on a cell that was drawn for the reward: it is taken if it is
    /// one of the `max` cells of the board and no segment of `snake_body` lies
    /// on it.
    pub fn gen_reward_cell(max: usize, snake_body: &Vec<SnakeCell>, candidate: usize) -> (reward_cell:
        Option<usize>)
        ensures
            reward_cell == if candidate < max && !cells_of(snake_body@).contains(candidate as int) {
                Some(candidate)
            } else {
                None
            },
    {
        let taken = holds_cell(snake_body, 0, candidate);
        proof {
            if taken {
                let i = choose|i: int| 0 <= i < snake_body@.len() && snake_body@[i].0 == candidate;
                assert(cells_of(snake_body@)[i] == candidate as int);
            }
        }
        if candidate < max && !taken {
            Some(candidate)
        } else {
            None
        }
    }

    /// Whether the game waits for a reward cell to be placed.
    pub fn awaits_reward(&self) -> (waiting: bool)
        ensures
            waiting == self@.awaits_reward(),
    {
        self.reward_cell.is_none() && self.status != Some(GameStatus::Won)
    }

    /// Offers `candidate` as the reward cell. It is taken, and `true`
    /// returned, if the game awaits a reward cell and the candidate is a cell
    /// of the board that the snake does not cover; else nothing changes.
    pub fn place_reward(&mut self, candidate: usize) -> (placed: bool)
        requires
            old(self).wf(),
        ensures
            final(self).wf(),
            final(self)@ == old(self)@.place_reward(candidate as int),
            placed == old(self)@.accepts_reward(candidate as int),
    {
        proof {
            lemma_commands_keep_wf(self@, Direction::Up, candidate as int);
        }
        if !self.awaits_reward() {
            return false;
        }
        match World::gen_reward_cell(self.size, &self.snake.body, candidate) {
            Some(cell) => {
                self.reward_cell = Some(cell);
                true
            },
            None => false,
        }
    }

    /// Starts the game: it is in progress afterwards, unless it was already
    /// won or lost, which it then stays.
    pub fn start_game(&mut self)
        requires
            old(self).wf(),
        ensures
            final(self).wf(),
            final(self)@ == old(self)@.start(),
    {
        proof {
            lemma_commands_keep_wf(self@, Direction::Up, 0);
        }
        match self.status {
            Some(GameStatus::Won) | Some(GameStatus::Lost) => {},
            _ => {
                self.status = Some(GameStatus::Played);
            },
        }
    }

    /// The status of the game; none while it has not been started.
    pub fn game_status(&self) -> (status: Option<GameStatus>)
        ensures
            status == self@.status,
    {
        self.status
    }

    /// The label of the game's status.
    pub fn game_status_info(&self) -> (info: String)
        ensures
            info@ == status_label(self@.status),
    {
        broadcast use vstd::string::to_string_from_display_ensures_for_str;

        match self.status {
            Some(GameStatus::Won) => "You Won!".to_string(),
            Some(GameStatus::Lost) => "You Lost!".to_string(),
            Some(GameStatus::Played) => "You Playing!".to_string(),
            None => "None!".to_string(),
        }
    }

    /// The reward cell, if there is one. No segment of the snake lies on it.
    pub fn reward_cell(&self) -> (reward: Option<usize>)
        requires
            self.wf(),
        ensures
            match reward {
                Some(cell) => self@.reward == Some(cell as int) && !self@.occupied(cell as int),
                None => self@.reward is None,
            },
    {
        self.reward_cell
    }

    /// The width of the board.
    pub fn width(&self) -> (width: usize)
        ensures
            width == self@.width,
    {
        self.width
    }

    /// The cell on which the snake's head lies.
    pub fn snake_head_index(&self) -> (index: usize)
        requires
            self.wf(),
        ensures
            index == self@.head(),
    {
        self.snake.body[0].0
    }

    /// Turns the snake to `direction`, unless that would lead the head
    /// straight back onto the segment behind it: then the request is ignored.
    pub fn change_snake_direction(&mut self, direction: Direction)
        requires
            old(self).wf(),
        ensures
            final(self).wf(),
            final(self)@ == old(self)@.turn(direction),
    {
        proof {
            lemma_commands_keep_wf(self@, direction, 0);
        }
        let next_cell = self.gen_next_snake_cell(&direction);
        if self.snake.body[1].0 == next_cell.0 {
            return ;
        }
        self.snake.direction = direction;
    }

    /// The segments of the snake, head first.
    pub fn snake_cells(&self) -> (cells: &[SnakeCell])
        ensures
            cells_of(cells@) == self@.body,
    {
        self.snake.body.as_slice()
    }

    /// The number of segments of the snake.
    pub fn snake_length(&self) -> (length: usize)
        ensures
            length == self@.body.len(),
    {
        self.snake.body.len()
    }

    /// Advances the game by one tick. The game must not be over, and must
    /// have its reward cell.
    pub fn update(&mut self)
        requires
            old(self).wf(),
            old(self)@.can_tick(),
        ensures
            final(self).wf(),
            final(self)@ == old(self)@.tick(),
    {
        proof {
            lemma_tick_keeps_wf(self@);
            lemma_next_head_on_board(self@);
        }
        let head = match self.next_cell {
            Some(cell) => cell,
            None => self.gen_next_snake_cell(&self.snake.direction),
        };
        self.next_cell = None;
        self.snake.advance(head);
        let len = self.snake.body.len();
        let collided = holds_cell(&self.snake.body, 1, head.0);
        proof {
            let trail = old(self)@.body.drop_last();
            if collided {
                let i = choose|i: int|
                    1 <= i < self.snake.body@.len() && self.snake.body@[i].0 == head.0;
                assert(self.snake.cells()[i] == head.0);
                assert(trail[i - 1] == head.0);
            }
            if old(self)@.collides() {
                let i = choose|i: int| 0 <= i < trail.len() && trail[i] == head.0 as int;
                assert(self.snake.cells()[i + 1] == head.0);
                assert(self.snake.body@[i + 1].0 == head.0);
            }
        }
        if collided {
            self.status = Some(GameStatus::Lost);
        } else if self.reward_cell == Some(head.0) {
            self.reward_cell = None;
            if len < self.size {
                let neck = self.snake.body[1];
                self.snake.body.push(neck);
            } else {
                self.status = Some(GameStatus::Won);
            }
        }
        assert(self@.body =~= old(self)@.tick().body);
    }

    /// The cell one step from the head in `direction`, on a board whose edges
    /// wrap around.
    pub fn gen_next_snake_cell(&self, direction: &Direction) -> (cell: SnakeCell)
        requires
            self.wf(),
        ensures
            cell.0 == step(self@.width, self@.head(), *direction),
    {
        let snake_index = self.snake_head_index();
        let row = snake_index / self.width;
        proof {
            lemma_row_col_of_cell(self.width as int, snake_index as int);
            lemma_step_by_cases(self.width as int, snake_index as int, *direction);
            lemma_step_on_board(self.width as int, snake_index as int, *direction);
            let (w, r) = (self.width as int, row as int);
            assert((r + 1) * w == r * w + w && w <= w * w && (r >= 1 ==> w <= r * w) && (r == 0
                ==> r * w == 0) && (r + 1) * w <= w * w) by (nonlinear_arith)
                requires
                    0 <= r < w,
            ;
        }
        match direction {
            Direction::Up => {
                let border_hold = snake_index - row * self.width;
                if snake_index == border_hold {
                    SnakeCell((self.size - self.width) + border_hold)
                } else {
                    SnakeCell(snake_index - self.width)
                }
            },
            Direction::Down => {
                let border_hold = self.size - self.width;
                if snake_index >= border_hold {
                    SnakeCell(snake_index - border_hold)
                } else {
                    SnakeCell(snake_index + self.width)
                }
            },
            Direction::Left => {
                let border_hold = row * self.width;
                if snake_index == border_hold {
                    SnakeCell(border_hold + self.width - 1)
                } else {
                    SnakeCell(snake_index - 1)
                }
            },
            Direction::Right => {
                let border_hold = (row + 1) * self.width;
                if snake_index + 1 == border_hold {
                    SnakeCell(border_hold - self.width)
                } else {
                    SnakeCell(snake_index + 1)
                }
            },
        }
    }

    /// The row and the column of the cell `index`.
    pub fn index_to_cell(&self, index: usize) -> (cell: (usize, usize))
        requires
            self.wf(),
        ensures
            cell.0 == row_of(self@.width, index as int),
            cell.1 == col_of(self@.width, index as int),
    {
        (index / self.width, index % self.width)
    }

    /// The index of the cell in row `row` and column `col` of the board.
    pub fn cell_to_index(&self, row: usize, col: usize) -> (index: usize)
        requires
            self.wf(),
            row < self@.width,
            col < self@.width,
        ensures
            index == cell_at(self@.width, row as int, col as int),
            on_board(self@.width, index as int),
    {
        proof {
            lemma_cell_of_row_col(self.width as int, row as int, col as int);
        }
        row * self.width + col
    }
}

} // verus!
