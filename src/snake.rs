//! The snake: its body, the direction it moves in, and the guard that keeps
//! a quick pair of turns within one tick from reversing it.

use vstd::prelude::*;
use vstd::arithmetic::div_mod::lemma_mod_add_multiples_vanish;
use crate::board::{Direction, opposite, next_head, lemma_next_head_on_board, lemma_side_within_area};

verus! {

/// What one tick did to the snake.
#[derive(PartialEq, Eq, Structural, Clone, Copy, Debug)]
pub(crate) enum SnakeUpdateState {
    Grown,
    Same,
    Dead,
    Won,
}

/// The direction the snake had when this tick began, recorded once it has
/// turned in this tick.
#[derive(PartialEq, Eq, Structural, Clone, Copy, Debug)]
pub(crate) enum DirectionChange {
    Previous(Direction),
    Empty,
}

pub(crate) struct Snake {
    pub(crate) body: Vec<usize>,
    pub(crate) direction: Direction,
    pub(crate) direction_change: DirectionChange,
}

/// The direction against which a requested turn is judged: the one the tick
/// began with, recorded at its first turn, else the current one.
pub open spec fn turn_baseline(direction: Direction, pending: Option<Direction>) -> Direction {
    match pending {
        Some(p) => p,
        None => direction,
    }
}

/// A turn is accepted unless it points straight back against the baseline.
pub open spec fn accepts_turn(direction: Direction, pending: Option<Direction>, requested: Direction) -> bool {
    requested != opposite(turn_baseline(direction, pending))
}

/// Direction and pending record after a turn to `requested` is asked for.
pub open spec fn turned(direction: Direction, pending: Option<Direction>, requested: Direction) -> (
    Direction,
    Option<Direction>,
) {
    if accepts_turn(direction, pending, requested) {
        (requested, Some(turn_baseline(direction, pending)))
    } else {
        (direction, pending)
    }
}

/// Direction and pending record after the turns `requests`, asked for in
/// order.
pub open spec fn turned_all(direction: Direction, pending: Option<Direction>, requests: Seq<Direction>) -> (
    Direction,
    Option<Direction>,
)
    decreases requests.len(),
{
    if requests.len() == 0 {
        (direction, pending)
    } else {
        let (d, p) = turned_all(direction, pending, requests.drop_last());
        turned(d, p, requests.last())
    }
}

/// Turns keep the baseline, and never leave the snake facing against it.
proof fn lemma_turns_keep_baseline(direction: Direction, pending: Option<Direction>, requests: Seq<Direction>)
    requires
        direction != opposite(turn_baseline(direction, pending)),
    ensures
        ({
            let (d, p) = turned_all(direction, pending, requests);
            &&& turn_baseline(d, p) == turn_baseline(direction, pending)
            &&& d != opposite(turn_baseline(direction, pending))
        }),
    decreases requests.len(),
{
    if requests.len() > 0 {
        lemma_turns_keep_baseline(direction, pending, requests.drop_last());
    }
}

/// However many turns are asked for within one tick, the snake never ends up
/// facing against the direction the tick began with.
pub proof fn lemma_turns_never_reverse(start: Direction, requests: Seq<Direction>)
    ensures
        turned_all(start, None, requests).0 != opposite(start),
{
    lemma_turns_keep_baseline(start, None, requests);
}

/// Within one tick that started with no pending turn, a turn to `d` followed
/// at once by a turn to the opposite of `d` has that second turn judged
/// against the direction the tick started with, not against `d`; so the
/// pair never leaves the snake facing back against that starting direction.
pub proof fn lemma_second_turn_judged_by_baseline(start: Direction, d: Direction)
    ensures
        ({
            let (d1, p1) = turned(start, None, d);
            &&& accepts_turn(d1, p1, opposite(d)) == accepts_turn(start, None, opposite(d))
            &&& turned(d1, p1, opposite(d)).0 != opposite(start)
        }),
{
}

/// The body after each segment takes its predecessor's place and the head
/// moves to `head`.
pub open spec fn shifted(body: Seq<usize>, head: usize) -> Seq<usize> {
    Seq::new(body.len(), |i: int| if i == 0 { head } else { body[i - 1] })
}

/// The body at the start of a tick: one segment longer, a copy of the tail,
/// where the head stands on the reward.
pub open spec fn grown_body(body: Seq<usize>, reward_cell: usize) -> Seq<usize> {
    if body[0] == reward_cell {
        body.push(body.last())
    } else {
        body
    }
}

/// The body at the end of a tick.
pub open spec fn moved_body(body: Seq<usize>, width: int, reward_cell: usize, d: Direction) -> Seq<
    usize,
> {
    shifted(grown_body(body, reward_cell), next_head(body[0] as int, width, d) as usize)
}

/// Some segment other than the head stands on the head's cell.
pub open spec fn collides(body: Seq<usize>) -> bool {
    exists|i: int| 1 <= i < body.len() && #[trigger] body[i] == body[0]
}

/// Every segment stands on a cell of a board of side `width`.
pub open spec fn on_board(body: Seq<usize>, width: int) -> bool {
    forall|i: int| 0 <= i < body.len() ==> 0 <= #[trigger] body[i] < width * width
}

/// What a tick reports: a collision overrides everything, a full board
/// overrides growth.
pub(crate) open spec fn tick_outcome(body: Seq<usize>, width: int, reward_cell: usize, d: Direction) -> SnakeUpdateState {
    let moved = moved_body(body, width, reward_cell, d);
    if collides(moved) {
        SnakeUpdateState::Dead
    } else if moved.len() == width * width - 1 {
        SnakeUpdateState::Won
    } else if body[0] == reward_cell {
        SnakeUpdateState::Grown
    } else {
        SnakeUpdateState::Same
    }
}

impl Snake {
    /// The pending record as an optional direction.
    pub(crate) open spec fn pending(&self) -> Option<Direction> {
        match self.direction_change {
            DirectionChange::Previous(p) => Some(p),
            DirectionChange::Empty => None,
        }
    }

    pub(crate) fn new(index: usize) -> (s: Snake)
        ensures
            s.body@ == seq![index],
            s.direction == Direction::Right,
            s.pending() == None::<Direction>,
    {
        Snake { body: vec![index], direction: Direction::Right, direction_change: DirectionChange::Empty }
    }

    pub(crate) fn get_head(&self) -> (r: usize)
        requires
            self.body@.len() >= 1,
        ensures
            r == self.body@[0],
    {
        self.body[0]
    }

    pub(crate) fn len(&self) -> (r: usize)
        ensures
            r == self.body@.len(),
    {
        self.body.len()
    }

    /// The cell of segment `body_index`, or 0 past the tail.
    pub(crate) fn get_location(&self, body_index: usize) -> (r: usize)
        ensures
            r == if body_index < self.body@.len() { self.body@[body_index as int] } else { 0 },
    {
        if body_index >= self.len() {
            return 0;
        }
        self.body[body_index]
    }

    pub(crate) fn change_direction(&mut self, direction: Direction)
        ensures
            (final(self).direction, final(self).pending()) == turned(
                old(self).direction,
                old(self).pending(),
                direction,
            ),
            final(self).body@ == old(self).body@,
    {
        let baseline = match self.direction_change {
            DirectionChange::Empty => self.direction,
            DirectionChange::Previous(from) => from,
        };
        if !Snake::direction_valid(&baseline, &direction) {
            return;
        }
        self.direction_change = DirectionChange::Previous(baseline);
        self.direction = direction;
    }

    /// A move from `from` to `direction` is valid unless it reverses.
    pub(crate) fn direction_valid(from: &Direction, direction: &Direction) -> (r: bool)
        ensures
            r == (*direction != opposite(*from)),
    {
        if *from == Direction::Left && *direction == Direction::Right || *from == Direction::Right
            && *direction == Direction::Left || *from == Direction::Up && *direction
            == Direction::Down || *from == Direction::Down && *direction == Direction::Up {
            return false;
        }
        true
    }

    /// Appends a copy of the tail; the next shift moves it into place.
    pub(crate) fn grow(&mut self)
        requires
            old(self).body@.len() >= 1,
            old(self).body@.len() < usize::MAX,
        ensures
            final(self).body@ == old(self).body@.push(old(self).body@.last()),
            final(self).body@.len() == old(self).body@.len() + 1,
            forall|i: int|
                0 <= i < old(self).body@.len() ==> final(self).body@[i] == old(self).body@[i],
            final(self).direction == old(self).direction,
            final(self).direction_change == old(self).direction_change,
    {
        let last_cell = self.body[self.body.len() - 1];
        self.body.push(last_cell);
    }

    /// Moves every segment but the head to its predecessor's cell.
    pub(crate) fn move_body(&mut self)
        requires
            old(self).body@.len() >= 1,
        ensures
            final(self).body@.len() == old(self).body@.len(),
            final(self).body@[0] == old(self).body@[0],
            forall|i: int|
                1 <= i < old(self).body@.len() ==> final(self).body@[i] == old(self).body@[i - 1],
            final(self).direction == old(self).direction,
            final(self).direction_change == old(self).direction_change,
    {
        let mut i: usize = self.body.len();
        while i > 1
            invariant
                1 <= i <= self.body@.len(),
                self.body@.len() == old(self).body@.len(),
                forall|j: int| 0 <= j < i ==> self.body@[j] == old(self).body@[j],
                forall|j: int| i <= j < self.body@.len() ==> self.body@[j] == old(self).body@[j - 1],
                self.direction == old(self).direction,
                self.direction_change == old(self).direction_change,
            decreases i,
        {
            i = i - 1;
            let prev = self.body[i - 1];
            self.body.set(i, prev);
        }
    }

    /// One step right: the body follows and the head takes the next cell.
    pub(crate) fn move_right(&mut self, width: usize)
        requires
            width >= 1,
            width * width <= usize::MAX,
            old(self).body@.len() >= 1,
            old(self).body@[0] < width * width,
        ensures
            final(self).body@ == shifted(
                old(self).body@,
                next_head(old(self).body@[0] as int, width as int, Direction::Right) as usize,
            ),
            final(self).direction == old(self).direction,
            final(self).direction_change == old(self).direction_change,
    {
        let mut index = self.get_head();
        proof {
            lemma_next_head_on_board(index as int, width as int, Direction::Right);
        }
        if (index + 1) % width == 0 {
            index = index - (width - 1);
        } else {
            index += 1;
        }
        self.move_body();
        self.body.set(0, index);
        proof {
            assert(self.body@ =~= shifted(old(self).body@, index));
        }
    }

    /// One step down: the body follows and the head takes the next cell.
    pub(crate) fn move_down(&mut self, width: usize)
        requires
            width >= 1,
            width * width <= usize::MAX,
            old(self).body@.len() >= 1,
            old(self).body@[0] < width * width,
        ensures
            final(self).body@ == shifted(
                old(self).body@,
                next_head(old(self).body@[0] as int, width as int, Direction::Down) as usize,
            ),
            final(self).direction == old(self).direction,
            final(self).direction_change == old(self).direction_change,
    {
        let head = self.get_head();
        proof {
            lemma_next_head_on_board(head as int, width as int, Direction::Down);
            lemma_side_within_area(width as int);
            lemma_mod_add_multiples_vanish(head as int, width as int);
        }
        let index = if head >= width * width - width {
            head % width
        } else {
            head + width
        };
        self.move_body();
        self.body.set(0, index);
        proof {
            assert(self.body@ =~= shifted(old(self).body@, index));
        }
    }

    /// One step left: the body follows and the head takes the next cell.
    pub(crate) fn move_left(&mut self, width: usize)
        requires
            width >= 1,
            width * width <= usize::MAX,
            old(self).body@.len() >= 1,
            old(self).body@[0] < width * width,
        ensures
            final(self).body@ == shifted(
                old(self).body@,
                next_head(old(self).body@[0] as int, width as int, Direction::Left) as usize,
            ),
            final(self).direction == old(self).direction,
            final(self).direction_change == old(self).direction_change,
    {
        let mut index = self.get_head();
        proof {
            lemma_next_head_on_board(index as int, width as int, Direction::Left);
        }
        if index % width == 0 {
            index += width - 1;
        } else {
            index -= 1;
        }
        self.move_body();
        self.body.set(0, index);
        proof {
            assert(self.body@ =~= shifted(old(self).body@, index));
        }
    }

    /// One step up: the body follows and the head takes the next cell.
    pub(crate) fn move_up(&mut self, width: usize)
        requires
            width >= 1,
            width * width <= usize::MAX,
            old(self).body@.len() >= 1,
            old(self).body@[0] < width * width,
        ensures
            final(self).body@ == shifted(
                old(self).body@,
                next_head(old(self).body@[0] as int, width as int, Direction::Up) as usize,
            ),
            final(self).direction == old(self).direction,
            final(self).direction_change == old(self).direction_change,
    {
        let mut index = self.get_head();
        proof {
            lemma_next_head_on_board(index as int, width as int, Direction::Up);
            lemma_side_within_area(width as int);
        }
        if index < width {
            index = width * width - width + index;
        } else {
            index -= width;
        }
        self.move_body();
        self.body.set(0, index);
        proof {
            assert(self.body@ =~= shifted(old(self).body@, index));
        }
    }

    /// Whether some segment stands on `index`.
    pub(crate) fn index_taken(&self, index: usize) -> (r: bool)
        ensures
            r == self.body@.contains(index),
    {
        let mut i: usize = 0;
        while i < self.body.len()
            invariant
                0 <= i <= self.body@.len(),
                forall|j: int| 0 <= j < i ==> self.body@[j] != index,
            decreases self.body@.len() - i,
        {
            if self.body[i] == index {
                return true;
            }
            i += 1;
        }
        false
    }

    /// Whether a segment other than the head stands on the head's cell.
    pub(crate) fn is_dead(&self) -> (r: bool)
        requires
            self.body@.len() >= 1,
        ensures
            r == collides(self.body@),
    {
        let mut i: usize = 1;
        while i < self.body.len()
            invariant
                1 <= i <= self.body@.len(),
                forall|j: int| 1 <= j < i ==> #[trigger] self.body@[j] != self.body@[0],
            decreases self.body@.len() - i,
        {
            if self.body[0] == self.body[i] {
                return true;
            }
            i += 1;
        }
        false
    }

    /// Whether the snake fills every cell of the board but one.
    pub(crate) fn is_won(&self, width: usize) -> (r: bool)
        requires
            width * width <= usize::MAX,
            width >= 1,
        ensures
            r == (self.body@.len() == width * width - 1),
    {
        proof {
            lemma_side_within_area(width as int);
        }
        self.body.len() == width * width - 1
    }

    /// One tick: grow if the head stands on the reward, step in the current
    /// direction, report the outcome, and forget the turns of this tick.
    pub(crate) fn update(&mut self, width: usize, reward_cell: usize) -> (r: SnakeUpdateState)
        requires
            width >= 1,
            width * width <= usize::MAX,
            1 <= old(self).body@.len() < width * width,
            on_board(old(self).body@, width as int),
        ensures
            final(self).body@ == moved_body(old(self).body@, width as int, reward_cell, old(self).direction),
            final(self).direction == old(self).direction,
            final(self).pending() == None::<Direction>,
            r == tick_outcome(old(self).body@, width as int, reward_cell, old(self).direction),
            (r == SnakeUpdateState::Dead) <==> collides(final(self).body@),
            (r == SnakeUpdateState::Won) <==> !collides(final(self).body@) && final(self).body@.len()
                == width * width - 1,
    {
        let mut snake_update_state = SnakeUpdateState::Same;
        if reward_cell == self.get_head() {
            self.grow();
            snake_update_state = SnakeUpdateState::Grown;
        }
        match self.direction {
            Direction::Right => self.move_right(width),
            Direction::Down => self.move_down(width),
            Direction::Left => self.move_left(width),
            Direction::Up => self.move_up(width),
        }
        if self.is_dead() {
            snake_update_state = SnakeUpdateState::Dead;
        } else if self.is_won(width) {
            snake_update_state = SnakeUpdateState::Won;
        }
        self.direction_change = DirectionChange::Empty;
        snake_update_state
    }
}

} // verus!
