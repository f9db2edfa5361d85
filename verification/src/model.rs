//! The game as a mathematical value, and the rules as functions on it.
//!
//! A [`WorldModel`] is what a [`crate::world::World`] stands for. Every
//! operation of the game is a function from model to model here, and the laws
//! that hold of the game are proved of these functions.

use crate::geometry::{on_board, step, lemma_step_on_board, Direction};
use vstd::prelude::*;

verus! {

/// How far a game has come. A game that has not been started has no status.
#[derive(PartialEq, Eq, Structural, Clone, Copy, Debug)]
pub enum GameStatus {
    Won,
    Lost,
    Played,
}

/// The state of a game: the board's width, the snake's cells from head to
/// tail, the way it faces, the reward cell, a head position waiting to be
/// taken on the next tick, and the status.
pub struct WorldModel {
    pub width: int,
    pub body: Seq<int>,
    pub direction: Direction,
    pub reward: Option<int>,
    pub pending_head: Option<int>,
    pub status: Option<GameStatus>,
}

/// How far along its life a status is: not started, in progress, over.
pub open spec fn stage(status: Option<GameStatus>) -> int {
    match status {
        None => 0,
        Some(GameStatus::Played) => 1,
        Some(GameStatus::Won) | Some(GameStatus::Lost) => 2,
    }
}

/// No two of the cells are the same.
pub open spec fn all_apart(cells: Seq<int>) -> bool {
    forall|i: int, j: int| 0 <= i < j < cells.len() ==> cells[i] != cells[j]
}

/// The body that a snake has when it is laid out from `spawn` backwards:
/// `length` cells with falling indices.
pub open spec fn laid_out(spawn: int, length: int) -> Seq<int> {
    Seq::new(length as nat, |i: int| spawn - i)
}

impl WorldModel {
    /// The number of cells on the board.
    pub open spec fn size(self) -> int {
        self.width * self.width
    }

    /// The cell on which the snake's head lies.
    pub open spec fn head(self) -> int {
        self.body[0]
    }

    /// Whether a segment of the snake lies on `cell`.
    pub open spec fn occupied(self, cell: int) -> bool {
        self.body.contains(cell)
    }

    /// The game has been won or lost.
    pub open spec fn over(self) -> bool {
        stage(self.status) == 2
    }

    /// The game goes on and has no reward cell: the next one is still to be
    /// placed.
    pub open spec fn awaits_reward(self) -> bool {
        self.reward is None && self.status != Some(GameStatus::Won)
    }

    /// The segments are apart from one another, but for a tail that was just
    /// appended and still repeats the cell behind the head.
    pub open spec fn untangled(self) -> bool {
        &&& all_apart(self.body.drop_last())
        &&& all_apart(self.body) || self.body.last() == self.body[1]
    }

    /// What holds of every state that the game can reach.
    pub open spec fn wf(self) -> bool {
        &&& 0 < self.width
        &&& 3 <= self.body.len() <= self.size()
        &&& forall|i: int| 0 <= i < self.body.len() ==> on_board(self.width, #[trigger] self.body[i])
        &&& match self.reward {
            Some(cell) => on_board(self.width, cell) && !self.occupied(cell),
            None => true,
        }
        &&& match self.pending_head {
            Some(cell) => on_board(self.width, cell),
            None => true,
        }
        &&& self.status != Some(GameStatus::Lost) ==> self.untangled()
        &&& self.awaits_reward() ==> !self.over() && (self.body.len() < self.size()
            || self.body.last() == self.body[1])
    }

    /// The state in which a game begins: a snake of three cells that faces
    /// down, no reward cell yet, no status.
    pub open spec fn initial(width: int, spawn: int) -> WorldModel {
        WorldModel {
            width,
            body: laid_out(spawn, 3),
            direction: Direction::Down,
            reward: None,
            pending_head: None,
            status: None,
        }
    }

    /// Starting the game: a game that is not over is in progress afterwards; one
    /// that is over stays as it is.
    pub open spec fn start(self) -> WorldModel {
        if self.over() {
            self
        } else {
            WorldModel { status: Some(GameStatus::Played), ..self }
        }
    }

    /// Whether turning to `direction` would lead the head straight back onto
    /// the segment behind it.
    pub open spec fn reverses(self, direction: Direction) -> bool {
        step(self.width, self.head(), direction) == self.body[1]
    }

    /// Turning the snake: it faces `direction` afterwards, unless that is a
    /// reversal, which is ignored.
    pub open spec fn turn(self, direction: Direction) -> WorldModel {
        if self.reverses(direction) {
            self
        } else {
            WorldModel { direction, ..self }
        }
    }

    /// Whether `cell` can become the reward cell: one is awaited, and `cell`
    /// lies on the board under no segment of the snake.
    pub open spec fn accepts_reward(self, cell: int) -> bool {
        self.awaits_reward() && on_board(self.width, cell) && !self.occupied(cell)
    }

    /// Offering `cell` as the reward cell: it is taken where it can be, and the
    /// state stays as it is where it cannot.
    pub open spec fn place_reward(self, cell: int) -> WorldModel {
        if self.accepts_reward(cell) {
            WorldModel { reward: Some(cell), ..self }
        } else {
            self
        }
    }

    /// The cell to which the head moves on the next tick: the position that
    /// waits to be taken, if there is one, else one step the way the snake
    /// faces.
    pub open spec fn next_head(self) -> int {
        match self.pending_head {
            Some(cell) => cell,
            None => step(self.width, self.head(), self.direction),
        }
    }

    /// The body after a move: the new head, then every segment on the cell of
    /// the one that was ahead of it.
    pub open spec fn moved_body(self) -> Seq<int> {
        seq![self.next_head()] + self.body.drop_last()
    }

    /// The move runs the head into a segment that follows it.
    pub open spec fn collides(self) -> bool {
        self.body.drop_last().contains(self.next_head())
    }

    /// The move brings the head onto the reward cell.
    pub open spec fn eats(self) -> bool {
        self.reward == Some(self.next_head())
    }

    /// One tick of the game. The snake moves. If it ran into itself, the game
    /// is lost and nothing else happens. If it reached the reward cell, it
    /// either grows by a tail that repeats the cell behind the head and awaits
    /// a new reward cell, or, where it already has as many segments as the
    /// board has cells, the game is won.
    pub open spec fn tick(self) -> WorldModel {
        let moved = WorldModel { body: self.moved_body(), pending_head: None, ..self };
        if self.collides() {
            WorldModel { status: Some(GameStatus::Lost), ..moved }
        } else if self.eats() {
            if self.body.len() < self.size() {
                WorldModel { body: moved.body.push(moved.body[1]), reward: None, ..moved }
            } else {
                WorldModel { reward: None, status: Some(GameStatus::Won), ..moved }
            }
        } else {
            moved
        }
    }

    /// A tick can be taken: the game is not over and has its reward cell.
    pub open spec fn can_tick(self) -> bool {
        !self.over() && !self.awaits_reward()
    }
}

/// Fewer cells than the board has leave one of the board's cells out.
pub proof fn lemma_some_cell_left(cells: Seq<int>, size: int)
    requires
        cells.len() < size,
    ensures
        exists|cell: int| 0 <= cell < size && !cells.contains(cell),
{
    if forall|cell: int| 0 <= cell < size ==> cells.contains(cell) {
        let board = vstd::set_lib::set_int_range(0, size);
        vstd::set_lib::lemma_int_range(0, size);
        cells.lemma_cardinality_of_set();
        vstd::seq_lib::seq_to_set_is_finite(cells);
        assert(board.subset_of(cells.to_set())) by {
            assert forall|cell: int| board.contains(cell) implies cells.to_set().contains(
                cell,
            ) by {
                assert(cells.contains(cell));
            }
        }
        vstd::set_lib::lemma_len_subset(board, cells.to_set());
    }
}

/// The state in which a game begins is one that the game can reach, whenever
/// the spawn cell lies on the board with two cells before it.
pub proof fn lemma_initial_wf(width: int, spawn: int)
    requires
        0 < width,
        2 <= spawn < width * width,
    ensures
        WorldModel::initial(width, spawn).wf(),
        WorldModel::initial(width, spawn).awaits_reward(),
{
    let m = WorldModel::initial(width, spawn);
    assert(m.size() != 3) by (nonlinear_arith)
        requires
            m.size() == width * width,
    ;
}

/// The reward cell, where there is one, lies on the board under no segment of
/// the snake.
pub proof fn lemma_reward_off_snake(m: WorldModel)
    requires
        m.wf(),
    ensures
        forall|cell: int| m.reward == Some(cell) ==> on_board(m.width, cell) && !m.occupied(cell),
        forall|i: int| 0 <= i < m.body.len() ==> m.reward != Some(m.body[i]),
{
}

/// While a reward cell is awaited, some cell of the board is free to take it.
pub proof fn lemma_room_for_reward(m: WorldModel)
    requires
        m.wf(),
        m.awaits_reward(),
    ensures
        exists|cell: int| m.accepts_reward(cell),
{
    let trunk = if m.body.len() < m.size() {
        m.body
    } else {
        m.body.drop_last()
    };
    lemma_some_cell_left(trunk, m.size());
    let cell = choose|cell: int| 0 <= cell < m.size() && !trunk.contains(cell);
    assert(!m.body.contains(cell)) by {
        if m.body.contains(cell) {
            let i = choose|i: int| 0 <= i < m.body.len() && m.body[i] == cell;
            if m.body.len() < m.size() {
            } else if i < m.body.len() - 1 {
                assert(trunk[i] == cell);
            } else {
                assert(trunk[1] == cell);
            }
        }
    }
    assert(m.accepts_reward(cell));
}

/// Starting, turning and placing a reward cell lead from a state that the game
/// can reach to another.
pub proof fn lemma_commands_keep_wf(m: WorldModel, direction: Direction, cell: int)
    requires
        m.wf(),
    ensures
        m.start().wf(),
        m.turn(direction).wf(),
        m.place_reward(cell).wf(),
{
}

/// The cell to which the head moves next lies on the board.
pub proof fn lemma_next_head_on_board(m: WorldModel)
    requires
        m.wf(),
    ensures
        on_board(m.width, m.next_head()),
{
    if m.pending_head is None {
        lemma_step_on_board(m.width, m.head(), m.direction);
    }
}

/// A tick leads from a state that the game can reach to another. With it the
/// reward cell, where there is one, stays clear of the snake.
pub proof fn lemma_tick_keeps_wf(m: WorldModel)
    requires
        m.wf(),
        m.can_tick(),
    ensures
        m.tick().wf(),
{
    let head = m.next_head();
    let moved = m.moved_body();
    let after = m.tick();
    lemma_next_head_on_board(m);
    assert forall|i: int| 0 <= i < moved.len() implies on_board(m.width, #[trigger] moved[i])
        && (m.reward == Some(moved[i]) ==> i == 0) by {
        if i > 0 {
            assert(moved[i] == m.body[i - 1]);
        }
    }
    if !m.collides() {
        assert forall|i: int, j: int| 0 <= i < j < moved.len() implies moved[i] != moved[j] by {
            assert(moved[j] == m.body.drop_last()[j - 1]);
            if i > 0 {
                assert(moved[i] == m.body.drop_last()[i - 1]);
            }
        }
        assert forall|i: int, j: int| 0 <= i < j < moved.drop_last().len() implies moved.drop_last()[i]
            != moved.drop_last()[j] by {
            assert(moved.drop_last()[i] == moved[i] && moved.drop_last()[j] == moved[j]);
        }
    }
    if m.collides() {
        let at = choose|i: int| 0 <= i < m.body.drop_last().len() && m.body.drop_last()[i] == head;
        assert(m.body[at] == head);
    } else if m.eats() && m.body.len() < m.size() {
        assert(after.body.drop_last() =~= moved);
        assert(after.body.last() == after.body[1]);
    }
}

/// A tick leaves the snake as long as it was, unless the head reaches the
/// reward cell while the snake is shorter than the board is large: then the
/// snake is longer by exactly one segment.
pub proof fn lemma_tick_length(m: WorldModel)
    requires
        m.wf(),
        m.can_tick(),
    ensures
        m.tick().body.len() == if m.eats() && m.body.len() < m.size() {
            m.body.len() + 1
        } else {
            m.body.len()
        },
        m.eats() ==> m.tick().head() == m.reward->Some_0,
{
    if m.collides() {
        let at = choose|i: int|
            0 <= i < m.body.drop_last().len() && m.body.drop_last()[i] == m.next_head();
        assert(m.body[at] == m.next_head());
    }
}

/// The status only moves forward, from not started to in progress to over:
/// no command takes it back, and none changes it once the game is over. A
/// tick leaves the status as it was or ends the game.
pub proof fn lemma_status_moves_forward(m: WorldModel, direction: Direction, cell: int)
    ensures
        stage(m.start().status) >= stage(m.status),
        stage(m.turn(direction).status) >= stage(m.status),
        stage(m.place_reward(cell).status) >= stage(m.status),
        stage(m.tick().status) >= stage(m.status),
        m.over() ==> m.start().status == m.status && m.turn(direction).status == m.status
            && m.place_reward(cell).status == m.status,
        m.tick().status == m.status || m.tick().over(),
        m.status is None ==> m.turn(direction).status is None && m.place_reward(cell).status is None,
{
}

} // verus!
