use vstd::prelude::*;
use crate::direction::Direction;

verus! {

/// A cell of the board: `(x, y)`, 0-based, `x` growing rightward and `y`
/// growing downward.
pub type Position = (i32, i32);

/// The coordinates reached by moving one cell from `p` in direction `d`,
/// before any wrapping.
pub open spec fn moved(p: Position, d: Direction) -> (int, int) {
    match d {
        Direction::Up => (p.0 as int, p.1 - 1),
        Direction::Right => (p.0 + 1, p.1 as int),
        Direction::Down => (p.0 as int, p.1 + 1),
        Direction::Left => (p.0 - 1, p.1 as int),
    }
}

/// Toroidal wrap of one coordinate on an axis of length `bound`: past the
/// upper edge comes back at 0, below 0 comes back at `bound - 1`.
pub open spec fn wrap(c: int, bound: int) -> int {
    if c >= bound {
        0
    } else if c < 0 {
        bound - 1
    } else {
        c
    }
}

/// The cells `(0, y) .. (x - 1, y)` of row `y` that `snake` does not occupy,
/// left to right.
pub open spec fn free_in_row(snake: Seq<Position>, y: int, x: int) -> Seq<Position>
    decreases x,
{
    if x <= 0 {
        seq![]
    } else {
        let prev = free_in_row(snake, y, x - 1);
        let p: Position = ((x - 1) as i32, y as i32);
        if snake.contains(p) {
            prev
        } else {
            prev.push(p)
        }
    }
}

/// The free cells of rows `0 .. y` of a board `width` cells wide, in
/// row-major order.
pub open spec fn free_in_rows(width: int, snake: Seq<Position>, y: int) -> Seq<Position>
    decreases y,
{
    if y <= 0 {
        seq![]
    } else {
        free_in_rows(width, snake, y - 1) + free_in_row(snake, y - 1, width)
    }
}

/// Every cell of a `width` x `height` board that `snake` does not occupy, row
/// by row from the top, each row from the left.
pub open spec fn free_cells(width: int, height: int, snake: Seq<Position>) -> Seq<Position> {
    free_in_rows(width, snake, height)
}

/// The abstract state of a game.
pub struct GameView {
    pub width: int,
    pub height: int,
    /// Head first, tail last.
    pub snake: Seq<Position>,
    pub direction: Direction,
    pub next_direction: Direction,
    pub food: Position,
    pub finished: bool,
    pub score: int,
}

impl GameView {
    pub open spec fn in_bounds(self, p: Position) -> bool {
        0 <= p.0 < self.width && 0 <= p.1 < self.height
    }

    /// The state invariant: a non-empty board, and while the game runs a
    /// non-empty snake whose cells lie on the board and are pairwise distinct.
    pub open spec fn wf(self) -> bool {
        &&& 0 < self.width <= i32::MAX
        &&& 0 < self.height <= i32::MAX
        &&& !self.finished ==> {
            &&& self.snake.len() > 0
            &&& self.snake.no_duplicates()
            &&& forall|i: int| 0 <= i < self.snake.len() ==> #[trigger] self.in_bounds(self.snake[i])
        }
    }

    /// The state that a game of the given size starts in.
    pub open spec fn initial(width: int, height: int) -> GameView {
        GameView {
            width,
            height,
            snake: seq![((if width - 3 > 0 { width - 3 } else { 0 }) as i32, (height / 2) as i32)],
            direction: Direction::Left,
            next_direction: Direction::Left,
            food: ((if width - 1 < 2 { width - 1 } else { 2 }) as i32, (height / 2) as i32),
            finished: false,
            score: 0,
        }
    }

    /// The effect of asking for `requested`: accepted into the pending slot
    /// unless the game is over or the request repeats or reverses the
    /// direction in effect.
    pub open spec fn request(self, requested: Direction) -> GameView {
        if self.finished || self.direction.rejects(requested) {
            self
        } else {
            GameView { next_direction: requested, ..self }
        }
    }

    /// The cell that the head enters on the next tick, wrapped onto the board.
    pub open spec fn next_head(self) -> Position {
        let c = moved(self.snake[0], self.next_direction);
        (wrap(c.0, self.width) as i32, wrap(c.1, self.height) as i32)
    }

    /// The cells that the snake leaves free.
    pub open spec fn free(self) -> Seq<Position> {
        free_cells(self.width, self.height, self.snake)
    }

    /// The body after eating: the new head in front of the whole old body.
    pub open spec fn grown(self) -> Seq<Position> {
        seq![self.next_head()] + self.snake
    }

    /// The cells left for new food when the snake eats: those free of the
    /// grown body, the cell just entered included.
    pub open spec fn free_after_eating(self) -> Seq<Position> {
        free_cells(self.width, self.height, self.grown())
    }

    /// The cell for new food chosen by the random index `pick`.
    pub open spec fn food_choice(self, pick: int) -> Position {
        self.free_after_eating()[pick % (self.free_after_eating().len() as int)]
    }

    /// One tick, with `pick` standing for the random index that places new
    /// food (taken modulo the number of cells left for it).
    ///
    /// Entering a body cell ends the game with the body as it was. Eating
    /// always scores one: when the grown body would fill the board, the game
    /// is won and ends with the body and the food as they were, the head never
    /// placed; otherwise the head is
    /// placed, the body keeps its tail and the food moves to a cell free of
    /// the grown body.
    pub open spec fn advance(self, pick: int) -> GameView {
        if self.finished {
            self
        } else {
            let head = self.next_head();
            let turned = GameView { direction: self.next_direction, ..self };
            if self.snake.contains(head) {
                GameView { finished: true, ..turned }
            } else if head != self.food {
                GameView { snake: seq![head] + self.snake.drop_last(), ..turned }
            } else if self.free_after_eating().len() == 0 {
                GameView { finished: true, score: self.score + 1, ..turned }
            } else {
                GameView {
                    snake: self.grown(),
                    food: self.food_choice(pick),
                    score: self.score + 1,
                    ..turned
                }
            }
        }
    }
}

/// A free cell of a row prefix is a cell of that row, left of `x`, that the
/// snake does not occupy; and every such cell is listed.
pub proof fn lemma_free_in_row(snake: Seq<Position>, y: int, x: int, p: Position)
    requires
        0 <= y <= i32::MAX,
        x <= i32::MAX + 1,
    ensures
        free_in_row(snake, y, x).contains(p) <==> (p.1 == y && 0 <= p.0 < x && !snake.contains(p)),
    decreases x,
{
    if x > 0 {
        lemma_free_in_row(snake, y, x - 1, p);
        let prev = free_in_row(snake, y, x - 1);
        let q: Position = ((x - 1) as i32, y as i32);
        if !snake.contains(q) {
            assert(prev.push(q).contains(p) <==> (prev.contains(p) || p == q)) by {
                if p == q {
                    assert(prev.push(q)[prev.len() as int] == q);
                }
                if prev.contains(p) {
                    let i = choose|i: int| 0 <= i < prev.len() && prev[i] == p;
                    assert(prev.push(q)[i] == p);
                }
                if prev.push(q).contains(p) && p != q {
                    let i = choose|i: int| 0 <= i < prev.push(q).len() && prev.push(q)[i] == p;
                    assert(prev[i] == p);
                }
            }
        }
    }
}

/// The free cells of the first `y` rows are exactly the cells of those rows
/// that the snake does not occupy.
pub proof fn lemma_free_in_rows(width: int, snake: Seq<Position>, y: int, p: Position)
    requires
        0 <= width <= i32::MAX,
        y <= i32::MAX,
    ensures
        free_in_rows(width, snake, y).contains(p) <==> (0 <= p.0 < width && 0 <= p.1 < y
            && !snake.contains(p)),
    decreases y,
{
    if y > 0 {
        lemma_free_in_rows(width, snake, y - 1, p);
        lemma_free_in_row(snake, y - 1, width, p);
        let a = free_in_rows(width, snake, y - 1);
        let b = free_in_row(snake, y - 1, width);
        assert((a + b).contains(p) <==> (a.contains(p) || b.contains(p))) by {
            if a.contains(p) {
                let i = choose|i: int| 0 <= i < a.len() && a[i] == p;
                assert((a + b)[i] == p);
            }
            if b.contains(p) {
                let i = choose|i: int| 0 <= i < b.len() && b[i] == p;
                assert((a + b)[a.len() + i] == p);
            }
            if (a + b).contains(p) {
                let i = choose|i: int| 0 <= i < (a + b).len() && (a + b)[i] == p;
                if i < a.len() {
                    assert(a[i] == p);
                } else {
                    assert(b[i - a.len()] == p);
                }
            }
        }
    }
}

/// A cell is free exactly when it lies on the board and the snake does not
/// occupy it.
pub proof fn lemma_free_cells(width: int, height: int, snake: Seq<Position>, p: Position)
    requires
        0 <= width <= i32::MAX,
        height <= i32::MAX,
    ensures
        free_cells(width, height, snake).contains(p) <==> (0 <= p.0 < width && 0 <= p.1 < height
            && !snake.contains(p)),
{
    lemma_free_in_rows(width, snake, height, p);
}

/// The rows of an empty board hold every cell.
proof fn lemma_free_count_empty(width: int, y: int)
    requires
        0 <= width,
        0 <= y,
    ensures
        free_in_rows(width, seq![], y).len() == y * width,
        free_in_row(seq![], y, width).len() == width,
    decreases y,
{
    lemma_row_count_empty(y, width);
    if y > 0 {
        lemma_free_count_empty(width, y - 1);
        lemma_row_count_empty(y - 1, width);
        assert((y - 1) * width + width == y * width) by (nonlinear_arith);
    } else {
        assert(y * width == 0) by (nonlinear_arith)
            requires
                y == 0,
        ;
    }
}

proof fn lemma_row_count_empty(y: int, x: int)
    requires
        0 <= x,
    ensures
        free_in_row(seq![], y, x).len() == x,
    decreases x,
{
    if x > 0 {
        lemma_row_count_empty(y, x - 1);
    }
}

/// Taking the last cell `p` off a body frees exactly that one cell of a row
/// prefix, when `p` lies in it.
proof fn lemma_row_count_drop(snake: Seq<Position>, y: int, x: int)
    requires
        snake.len() > 0,
        !snake.drop_last().contains(snake.last()),
        0 <= y <= i32::MAX,
        x <= i32::MAX + 1,
    ensures
        free_in_row(snake.drop_last(), y, x).len() == free_in_row(snake, y, x).len() + (if snake.last().1
            == y && 0 <= snake.last().0 < x {
            1int
        } else {
            0int
        }),
    decreases x,
{
    if x > 0 {
        lemma_row_count_drop(snake, y, x - 1);
        let rest = snake.drop_last();
        let p = snake.last();
        let q: Position = ((x - 1) as i32, y as i32);
        assert(snake =~= rest.push(p));
        assert(snake.contains(q) <==> (rest.contains(q) || q == p)) by {
            if rest.contains(q) {
                let i = choose|i: int| 0 <= i < rest.len() && rest[i] == q;
                assert(snake[i] == q);
            }
            if q == p {
                assert(snake[snake.len() - 1] == q);
            }
            if snake.contains(q) && q != p {
                let i = choose|i: int| 0 <= i < snake.len() && snake[i] == q;
                assert(rest[i] == q);
            }
        }
    }
}

proof fn lemma_rows_count_drop(width: int, snake: Seq<Position>, y: int)
    requires
        snake.len() > 0,
        !snake.drop_last().contains(snake.last()),
        0 <= width <= i32::MAX,
        0 <= y <= i32::MAX,
    ensures
        free_in_rows(width, snake.drop_last(), y).len() == free_in_rows(width, snake, y).len() + (
        if 0 <= snake.last().1 < y && 0 <= snake.last().0 < width {
            1int
        } else {
            0int
        }),
    decreases y,
{
    if y > 0 {
        lemma_rows_count_drop(width, snake, y - 1);
        lemma_row_count_drop(snake, y - 1, width);
    }
}

/// A duplicate-free body on the board leaves free exactly the cells it does
/// not cover.
pub proof fn lemma_free_count(width: int, height: int, snake: Seq<Position>)
    requires
        0 < width <= i32::MAX,
        0 < height <= i32::MAX,
        snake.no_duplicates(),
        forall|i: int|
            0 <= i < snake.len() ==> 0 <= #[trigger] snake[i].0 < width && 0 <= snake[i].1 < height,
    ensures
        free_cells(width, height, snake).len() == width * height - snake.len(),
    decreases snake.len(),
{
    if snake.len() == 0 {
        lemma_free_count_empty(width, height);
        assert(snake =~= seq![]);
        assert(height * width == width * height) by (nonlinear_arith);
    } else {
        let rest = snake.drop_last();
        let p = snake.last();
        assert(!rest.contains(p)) by {
            if rest.contains(p) {
                let i = choose|i: int| 0 <= i < rest.len() && rest[i] == p;
                assert(snake[i] == snake[snake.len() - 1]);
            }
        }
        assert(rest.no_duplicates()) by {
            assert forall|i: int, j: int| 0 <= i < rest.len() && 0 <= j < rest.len() && i != j implies
                rest[i] != rest[j] by {
                assert(rest[i] == snake[i] && rest[j] == snake[j]);
            }
        }
        assert forall|i: int| 0 <= i < rest.len() implies 0 <= #[trigger] rest[i].0 < width && 0
            <= rest[i].1 < height by {
            assert(rest[i] == snake[i]);
        }
        assert(0 <= snake[snake.len() - 1].0 < width);
        lemma_free_count(width, height, rest);
        lemma_rows_count_drop(width, snake, height);
    }
}

} // verus!
