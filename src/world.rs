//! The world: board size, game status, reward placement, and the snake,
//! advanced one tick at a time.

use vstd::prelude::*;
use crate::board::{Direction, free_cells, reward_choice, lemma_next_head_on_board,
    lemma_reward_choice_is_free};
use crate::entropy::{EntropyError, draw_random};
use crate::snake::{Snake, SnakeUpdateState, turned, moved_body, grown_body, collides, on_board};

verus! {

/// Where a game stands. It only ever moves forward:
/// NotStarted, then Started, then Finished or Failed.
#[derive(PartialEq, Eq, Structural, Clone, Copy, Debug)]
pub enum GameStatus {
    NotStarted,
    Started,
    Finished,
    Failed,
}

pub struct World {
    width: usize,
    game_status: GameStatus,
    snake: Snake,
    reward_cell: usize,
}

/// The state of a world as plain values.
pub ghost struct WorldView {
    pub width: int,
    pub status: GameStatus,
    /// The cells of the snake, head first.
    pub body: Seq<usize>,
    pub direction: Direction,
    /// The direction this tick began with, once the snake has turned in it.
    pub pending: Option<Direction>,
    pub reward_cell: usize,
}

impl View for World {
    type V = WorldView;

    closed spec fn view(&self) -> WorldView {
        WorldView {
            width: self.width as int,
            status: self.game_status,
            body: self.snake.body@,
            direction: self.snake.direction,
            pending: self.snake.pending(),
            reward_cell: self.reward_cell,
        }
    }
}

impl WorldView {
    /// The number of cells on the board.
    pub open spec fn area(self) -> int {
        self.width * self.width
    }

    /// The invariant of every world: a board of at least two columns whose
    /// cell numbers fit in a `usize`, a snake on the board that leaves at
    /// least one cell free, a reward on the board, and, while the game is
    /// not over, at least two cells free.
    pub open spec fn wf(self) -> bool {
        &&& self.width >= 2
        &&& self.area() <= usize::MAX
        &&& 1 <= self.body.len() <= self.area() - 1
        &&& on_board(self.body, self.width)
        &&& self.reward_cell < self.area()
        &&& (self.status == GameStatus::NotStarted || self.status == GameStatus::Started)
            ==> self.body.len() < self.area() - 1
    }

    /// A new world: a one-cell snake at `start_index` facing right, and the
    /// reward on the free cell that `draw` selects.
    pub open spec fn initial(width: int, start_index: usize, draw: u64) -> WorldView {
        WorldView {
            width,
            status: GameStatus::NotStarted,
            body: seq![start_index],
            direction: Direction::Right,
            pending: None,
            reward_cell: reward_choice(seq![start_index], (width * width) as usize, draw),
        }
    }

    /// The world after one tick. The snake moves; a collision fails the game,
    /// else a snake filling all cells but one finishes it; when the snake
    /// grew and the game goes on, the reward moves to the free cell that
    /// `draw` selects.
    pub open spec fn after_tick(self, draw: u64) -> WorldView {
        let moved = moved_body(self.body, self.width, self.reward_cell, self.direction);
        let status = if collides(moved) {
            GameStatus::Failed
        } else if moved.len() == self.area() - 1 {
            GameStatus::Finished
        } else {
            GameStatus::Started
        };
        let reward_cell = if status == GameStatus::Started && self.body[0] == self.reward_cell {
            reward_choice(moved, self.area() as usize, draw)
        } else {
            self.reward_cell
        };
        WorldView {
            width: self.width,
            status,
            body: moved,
            direction: self.direction,
            pending: None,
            reward_cell,
        }
    }
}

/// A tick fails the game exactly when the moved head lands on another
/// segment, and finishes it exactly when it does not and the snake then
/// fills every cell of the board but one.
pub proof fn lemma_tick_ends_game(v: WorldView, draw: u64)
    requires
        v.wf(),
        v.status == GameStatus::Started,
    ensures
        (v.after_tick(draw).status == GameStatus::Failed) <==> collides(v.after_tick(draw).body),
        (v.after_tick(draw).status == GameStatus::Finished) <==> !collides(v.after_tick(draw).body)
            && v.after_tick(draw).body.len() == v.area() - 1,
{
}

impl World {
    /// A new world whose reward cell is chosen by `draw`.
    pub fn new_with_draw(width: usize, start_index: usize, draw: u64) -> (w: World)
        requires
            width >= 2,
            width * width <= usize::MAX,
            start_index < width * width,
        ensures
            w@ == WorldView::initial(width as int, start_index, draw),
            w@.wf(),
    {
        let mut w = World {
            width,
            game_status: GameStatus::NotStarted,
            snake: Snake::new(start_index),
            reward_cell: 0,
        };
        proof {
            assert(4 <= width * width) by (nonlinear_arith)
                requires width >= 2;
        }
        w.generate_reward_cell(draw);
        w
    }

    /// A new world on a board of side `width` with the snake's head at
    /// `start_index`; the reward goes to a free cell drawn at random.
    pub fn new(width: usize, start_index: usize) -> (r: Result<World, EntropyError>)
        requires
            width >= 2,
            width * width <= usize::MAX,
            start_index < width * width,
        ensures
            r matches Ok(w) ==> {
                &&& w@.wf()
                &&& exists|draw: u64| w@ == WorldView::initial(width as int, start_index, draw)
                &&& w@.status == GameStatus::NotStarted
                &&& w@.body == seq![start_index]
                &&& w@.reward_cell != start_index
            },
    {
        let draw = draw_random()?;
        let w = World::new_with_draw(width, start_index, draw);
        proof {
            lemma_reward_choice_is_free(seq![start_index], (width * width) as usize, draw);
            assert(seq![start_index][0] == start_index);
        }
        Ok(w)
    }

    /// Starts a game that has not started yet.
    pub fn start_game(&mut self)
        requires
            old(self)@.wf(),
            old(self)@.status == GameStatus::NotStarted,
        ensures
            final(self)@ == (WorldView { status: GameStatus::Started, ..old(self)@ }),
            final(self)@.wf(),
    {
        self.game_status = GameStatus::Started;
    }

    pub fn width(&self) -> (r: usize)
        ensures
            r == self@.width,
    {
        self.width
    }

    pub fn snake_head(&self) -> (r: usize)
        requires
            self@.wf(),
        ensures
            r == self@.body[0],
    {
        self.snake.get_head()
    }

    pub fn snake_len(&self) -> (r: usize)
        ensures
            r == self@.body.len(),
    {
        self.snake.len()
    }

    /// The cell of segment `body_index`, or 0 past the tail.
    pub fn snake_body_position(&self, body_index: usize) -> (r: usize)
        ensures
            r == if body_index < self@.body.len() { self@.body[body_index as int] } else { 0 },
    {
        self.snake.get_location(body_index)
    }

    /// Asks the snake to turn; a turn straight back against the direction
    /// the tick started with is ignored, however many turns came before it.
    pub fn change_direction(&mut self, direction: Direction)
        requires
            old(self)@.wf(),
        ensures
            (final(self)@.direction, final(self)@.pending) == turned(
                old(self)@.direction,
                old(self)@.pending,
                direction,
            ),
            final(self)@.width == old(self)@.width,
            final(self)@.status == old(self)@.status,
            final(self)@.body == old(self)@.body,
            final(self)@.reward_cell == old(self)@.reward_cell,
            final(self)@.wf(),
    {
        self.snake.change_direction(direction);
    }

    pub fn get_reward_cell(&self) -> (r: usize)
        ensures
            r == self@.reward_cell,
    {
        self.reward_cell
    }

    pub fn get_game_status(&self) -> (r: GameStatus)
        ensures
            r == self@.status,
    {
        self.game_status
    }

    /// Advances a started game by one tick; `draw` chooses where the reward
    /// goes if the snake grew.
    pub fn update_with_draw(&mut self, draw: u64)
        requires
            old(self)@.wf(),
            old(self)@.status == GameStatus::Started,
        ensures
            final(self)@ == old(self)@.after_tick(draw),
            final(self)@.wf(),
    {
        let ghost body0 = self.snake.body@;
        let status = self.snake.update(self.width, self.reward_cell);
        proof {
            let w = self.width as int;
            let grown = grown_body(body0, old(self).reward_cell);
            lemma_next_head_on_board(body0[0] as int, w, old(self).snake.direction);
            assert(on_board(self.snake.body@, w)) by {
                assert forall|i: int| 0 <= i < self.snake.body@.len() implies 0 <= #[trigger] self.snake.body@[i] < w * w by {
                    if i > 0 {
                        assert(self.snake.body@[i] == grown[i - 1]);
                    }
                }
            }
        }
        match status {
            SnakeUpdateState::Grown => self.generate_reward_cell(draw),
            SnakeUpdateState::Same => {},
            SnakeUpdateState::Dead => self.game_failed(),
            SnakeUpdateState::Won => self.game_finished(),
        }
    }

    /// Advances a started game by one tick. Only a tick that begins with the
    /// head on the reward consults the random source, which then chooses
    /// where the reward goes if the snake grew; when that source fails, the
    /// world is left as it was.
    pub fn update(&mut self) -> (r: Result<(), EntropyError>)
        requires
            old(self)@.wf(),
            old(self)@.status == GameStatus::Started,
        ensures
            final(self)@.wf(),
            r is Err ==> final(self)@ == old(self)@ && old(self)@.body[0] == old(self)@.reward_cell,
            r matches Err(e) ==> e == EntropyError::Unavailable,
            old(self)@.body[0] != old(self)@.reward_cell ==> r is Ok && final(self)@ == old(
                self,
            )@.after_tick(0),
            r is Ok ==> exists|draw: u64| final(self)@ == old(self)@.after_tick(draw),
            r is Ok && old(self)@.body[0] == old(self)@.reward_cell && final(self)@.status
                == GameStatus::Started ==> !final(self)@.body.contains(final(self)@.reward_cell),
    {
        if self.snake.get_head() != self.reward_cell {
            self.update_with_draw(0);
            return Ok(());
        }
        let draw = draw_random()?;
        let ghost before = self@;
        self.update_with_draw(draw);
        proof {
            if before.body[0] == before.reward_cell && self@.status == GameStatus::Started {
                lemma_reward_choice_is_free(self@.body, before.area() as usize, draw);
            }
        }
        Ok(())
    }

    fn game_finished(&mut self)
        ensures
            final(self)@ == (WorldView { status: GameStatus::Finished, ..old(self)@ }),
    {
        self.game_status = GameStatus::Finished;
    }

    fn game_failed(&mut self)
        ensures
            final(self)@ == (WorldView { status: GameStatus::Failed, ..old(self)@ }),
    {
        self.game_status = GameStatus::Failed;
    }

    /// Moves the reward to the free cell that `draw` selects among the free
    /// cells in increasing order.
    fn generate_reward_cell(&mut self, draw: u64)
        requires
            old(self).width * old(self).width <= usize::MAX,
            old(self).snake.body@.len() < old(self).width * old(self).width,
        ensures
            final(self)@ == (WorldView {
                reward_cell: reward_choice(old(self)@.body, old(self)@.area() as usize, draw),
                ..old(self)@
            }),
            final(self).reward_cell < old(self)@.area(),
            !final(self)@.body.contains(final(self).reward_cell),
    {
        let n = self.width * self.width;
        let mut free: Vec<usize> = Vec::new();
        let mut c: usize = 0;
        while c < n
            invariant
                c <= n,
                free@ == free_cells(self.snake.body@, c),
            decreases n - c,
        {
            if !self.snake.index_taken(c) {
                free.push(c);
            }
            c += 1;
        }
        proof {
            lemma_reward_choice_is_free(self.snake.body@, n, draw);
        }
        let k = (draw % (free.len() as u64)) as usize;
        self.reward_cell = free[k];
    }
}

} // verus!
