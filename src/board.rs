//! Geometry of the square board: cells are numbered row by row, and moving
//! off one edge re-enters from the opposite edge.

use vstd::prelude::*;
use vstd::arithmetic::div_mod::{lemma_fundamental_div_mod, lemma_fundamental_div_mod_converse};

verus! {

/// The four directions in which the snake can move.
#[derive(PartialEq, Eq, Structural, Clone, Copy, Debug)]
pub enum Direction {
    Up,
    Right,
    Down,
    Left,
}

/// The direction that points the other way.
pub open spec fn opposite(d: Direction) -> Direction {
    match d {
        Direction::Up => Direction::Down,
        Direction::Right => Direction::Left,
        Direction::Down => Direction::Up,
        Direction::Left => Direction::Right,
    }
}

/// The cell reached from `head` by one step in direction `d` on a board of
/// side `width`, wrapping around at the edges.
pub open spec fn next_head(head: int, width: int, d: Direction) -> int {
    match d {
        Direction::Right => if (head + 1) % width == 0 {
            head - (width - 1)
        } else {
            head + 1
        },
        Direction::Left => if head % width == 0 {
            head + (width - 1)
        } else {
            head - 1
        },
        Direction::Down => if head + width > width * width - 1 {
            (head + width) % width
        } else {
            head + width
        },
        Direction::Up => if head < width {
            width * width - width + head
        } else {
            head - width
        },
    }
}

/// A board has at least as many cells as its side is long.
pub proof fn lemma_side_within_area(width: int)
    requires
        width >= 1,
    ensures
        width <= width * width,
{
    assert(width <= width * width) by (nonlinear_arith)
        requires width >= 1;
}

/// One step from a cell of the board stays on the board.
pub proof fn lemma_next_head_on_board(head: int, width: int, d: Direction)
    requires
        width >= 1,
        0 <= head < width * width,
    ensures
        0 <= next_head(head, width, d) < width * width,
{
    assert(width <= width * width) by (nonlinear_arith)
        requires width >= 1;
    match d {
        Direction::Right => {
            lemma_fundamental_div_mod(head + 1, width);
            let q = (head + 1) / width;
            if (head + 1) % width == 0 {
                assert(head + 1 >= width) by (nonlinear_arith)
                    requires head + 1 == width * q, head + 1 > 0, width > 0;
            } else {
                if head + 1 == width * width {
                    lemma_fundamental_div_mod_converse(head + 1, width, width, 0);
                }
            }
        },
        Direction::Left => {
            lemma_fundamental_div_mod(head, width);
            let q = head / width;
            if head % width == 0 {
                assert(head + width <= width * width) by (nonlinear_arith)
                    requires head == width * q, head < width * width, width > 0;
            }
        },
        Direction::Down => {
            if head + width > width * width - 1 {
                lemma_fundamental_div_mod(head + width, width);
            }
        },
        Direction::Up => {},
    }
}

/// A step followed by a step in the opposite direction comes back to the
/// cell it started from.
pub proof fn lemma_steps_undo(head: int, width: int)
    requires
        width >= 1,
        0 <= head < width * width,
    ensures
        next_head(next_head(head, width, Direction::Right), width, Direction::Left) == head,
        next_head(next_head(head, width, Direction::Down), width, Direction::Up) == head,
        next_head(next_head(head, width, Direction::Left), width, Direction::Right) == head,
        next_head(next_head(head, width, Direction::Up), width, Direction::Down) == head,
{
    lemma_side_within_area(width);
    lemma_fundamental_div_mod(head, width);
    let p = head / width;
    if head % width == 0 {
        assert(head + width == (p + 1) * width) by (nonlinear_arith)
            requires head == width * p;
        lemma_fundamental_div_mod_converse(head + width, width, p + 1, 0);
    }
    if head < width {
        lemma_fundamental_div_mod_converse(width * width - width + head + width, width, width, head);
    }
    lemma_fundamental_div_mod(head + 1, width);
    let q = (head + 1) / width;
    if (head + 1) % width == 0 {
        assert(head - (width - 1) == (q - 1) * width + 0) by (nonlinear_arith)
            requires head + 1 == width * q;
        lemma_fundamental_div_mod_converse(head - (width - 1), width, q - 1, 0);
    }
    if head + width > width * width - 1 {
        lemma_fundamental_div_mod_converse(head + width, width, width, head + width - width * width);
    }
}

/// The cells below `n` that no segment of `body` occupies, in increasing order.
pub open spec fn free_cells(body: Seq<usize>, n: usize) -> Seq<usize>
    decreases n,
{
    if n == 0 {
        Seq::empty()
    } else {
        let c = (n - 1) as usize;
        if body.contains(c) {
            free_cells(body, c)
        } else {
            free_cells(body, c).push(c)
        }
    }
}

/// The free cell that a random `draw` selects among the cells below `n`.
pub open spec fn reward_choice(body: Seq<usize>, n: usize, draw: u64) -> usize {
    let free = free_cells(body, n);
    free[(draw as int) % (free.len() as int)]
}

/// Every cell listed as free lies below `n` and is occupied by no segment.
pub proof fn lemma_free_cells_sound(body: Seq<usize>, n: usize)
    ensures
        forall|i: int|
            0 <= i < free_cells(body, n).len() ==> {
                &&& free_cells(body, n)[i] < n
                &&& !body.contains(#[trigger] free_cells(body, n)[i])
            },
    decreases n,
{
    if n > 0 {
        let c = (n - 1) as usize;
        lemma_free_cells_sound(body, c);
        let prev = free_cells(body, c);
        if !body.contains(c) {
            assert forall|i: int| 0 <= i < prev.len() + 1 implies #[trigger] prev.push(c)[i] < n
                && !body.contains(prev.push(c)[i]) by {
                if i < prev.len() {
                    assert(prev.push(c)[i] == prev[i]);
                }
            }
        }
    }
}

/// With no segments, every cell below `n` is free.
proof fn lemma_free_cells_empty(n: usize)
    ensures
        free_cells(Seq::<usize>::empty(), n).len() == n,
    decreases n,
{
    if n > 0 {
        lemma_free_cells_empty((n - 1) as usize);
    }
}

/// One more segment takes at most one cell from the free ones.
proof fn lemma_free_cells_push(body: Seq<usize>, x: usize, n: usize)
    ensures
        free_cells(body.push(x), n).len() + 1 >= free_cells(body, n).len(),
        free_cells(body.push(x), n).len() <= free_cells(body, n).len(),
        body.contains(x) || x >= n ==> free_cells(body.push(x), n).len() == free_cells(body, n).len(),
    decreases n,
{
    if n > 0 {
        let c = (n - 1) as usize;
        lemma_free_cells_push(body, x, c);
        let b2 = body.push(x);
        if body.contains(c) {
            let i = choose|i: int| 0 <= i < body.len() && body[i] == c;
            assert(b2[i] == c);
        }
        if b2.contains(c) && c != x {
            let i = choose|i: int| 0 <= i < b2.len() && b2[i] == c;
            assert(body[i] == c);
        }
        assert(b2[body.len() as int] == x);
        if body.contains(x) {
            let i = choose|i: int| 0 <= i < body.len() && body[i] == x;
            assert(b2[i] == x);
        }
    }
}

/// A body of `k` segments leaves at least `n - k` of the cells below `n` free.
pub proof fn lemma_free_cells_count(body: Seq<usize>, n: usize)
    ensures
        free_cells(body, n).len() + body.len() >= n,
    decreases body.len(),
{
    if body.len() == 0 {
        assert(body == Seq::<usize>::empty());
        lemma_free_cells_empty(n);
    } else {
        let rest = body.drop_last();
        lemma_free_cells_count(rest, n);
        lemma_free_cells_push(rest, body.last(), n);
        assert(rest.push(body.last()) == body);
    }
}

/// Where the body has fewer segments than the board has cells, the chosen
/// reward cell lies on the board and is occupied by no segment.
pub proof fn lemma_reward_choice_is_free(body: Seq<usize>, n: usize, draw: u64)
    requires
        body.len() < n,
    ensures
        free_cells(body, n).len() > 0,
        reward_choice(body, n, draw) < n,
        !body.contains(reward_choice(body, n, draw)),
{
    lemma_free_cells_count(body, n);
    lemma_free_cells_sound(body, n);
    let free = free_cells(body, n);
    let k = (draw as int) % (free.len() as int);
    assert(0 <= k < free.len());
    assert(free[k] < n);
}

} // verus!
