use std::collections::VecDeque;
use vstd::prelude::*;
use crate::direction::Direction;
use crate::model::{free_in_row, free_in_rows, GameView, Position};
use crate::random::random_range;

verus! {

/// Why a game could not be set up.
#[derive(Debug, Clone, Copy, PartialEq, Eq, Structural)]
pub enum GameError {
    /// The board must be at least one cell wide and one cell high.
    InvalidSize,
}

/// The whole state of one game.
#[derive(Debug)]
pub struct SnakeGame {
    pub width: i32,
    pub height: i32,
    /// Head first, tail last.
    pub snake: VecDeque<Position>,
    /// The direction that the last tick moved in.
    pub direction: Direction,
    /// The direction that the next tick will move in; changed only through
    /// [`SnakeGame::change_direction`].
    next_direction: Direction,
    pub food: Position,
    pub finished: bool,
    pub score: i32,
}

impl View for SnakeGame {
    type V = GameView;

    closed spec fn view(&self) -> GameView {
        GameView {
            width: self.width as int,
            height: self.height as int,
            snake: self.snake@,
            direction: self.direction,
            next_direction: self.next_direction,
            food: self.food,
            finished: self.finished,
            score: self.score as int,
        }
    }
}

/// Whether `p` is one of the cells of `snake`.
fn occupies(snake: &VecDeque<Position>, p: Position) -> (r: bool)
    ensures
        r == snake@.contains(p),
{
    let mut i: usize = 0;
    while i < snake.len()
        invariant
            i <= snake@.len(),
            forall|j: int| 0 <= j < i ==> snake@[j] != p,
        decreases snake@.len() - i,
    {
        let q = snake[i];
        if q.0 == p.0 && q.1 == p.1 {
            assert(snake@[i as int] == p);
            return true;
        }
        i += 1;
    }
    false
}

impl SnakeGame {
    /// A fresh game on a `width` x `height` board: a one-cell snake three cells
    /// from the right edge on the middle row, heading left, food two cells
    /// from the left edge.
    pub fn new(width: i32, height: i32) -> (r: SnakeGame)
        requires
            width > 0,
            height > 0,
        ensures
            r@ == GameView::initial(width as int, height as int),
            r@.wf(),
    {
        let mut snake: VecDeque<Position> = VecDeque::new();
        let x: i32 = if width - 3 > 0 { width - 3 } else { 0 };
        let y: i32 = height / 2;
        snake.push_back((x, y));
        let fx: i32 = if width - 1 < 2 { width - 1 } else { 2 };
        let r = SnakeGame {
            width,
            height,
            snake,
            direction: Direction::Left,
            next_direction: Direction::Left,
            food: (fx, y),
            finished: false,
            score: 0,
        };
        assert(r@.snake =~= GameView::initial(width as int, height as int).snake);
        r
    }

    /// A running game in a given position: `snake` head first, moving in
    /// `direction` with no turn pending.
    pub fn with_state(
        width: i32,
        height: i32,
        snake: VecDeque<Position>,
        direction: Direction,
        food: Position,
        score: i32,
    ) -> (r: SnakeGame)
        ensures
            r@ == (GameView {
                width: width as int,
                height: height as int,
                snake: snake@,
                direction,
                next_direction: direction,
                food,
                finished: false,
                score: score as int,
            }),
    {
        SnakeGame {
            width,
            height,
            snake,
            direction,
            next_direction: direction,
            food,
            finished: false,
            score,
        }
    }

    /// The direction that the next tick will move in.
    pub fn next_direction(&self) -> (r: Direction)
        ensures
            r == self@.next_direction,
    {
        self.next_direction
    }

    /// Like [`SnakeGame::new`], but refuses a board without cells.
    pub fn try_new(width: i32, height: i32) -> (r: Result<SnakeGame, GameError>)
        ensures
            match r {
                Ok(g) => width > 0 && height > 0 && g@ == GameView::initial(
                    width as int,
                    height as int,
                ),
                Err(e) => !(width > 0 && height > 0) && e == GameError::InvalidSize,
            },
    {
        if width > 0 && height > 0 {
            Ok(SnakeGame::new(width, height))
        } else {
            Err(GameError::InvalidSize)
        }
    }

    /// Asks for a turn on the next tick. Dropped once the game is over, and
    /// when `direction` repeats or reverses the direction in effect; otherwise
    /// it replaces any pending request.
    pub fn change_direction(&mut self, direction: Direction)
        ensures
            final(self)@ == old(self)@.request(direction),
            old(self)@.wf() ==> final(self)@.wf(),
    {
        if self.finished {
            return;
        }
        if !self.direction.is_redundant_or_reversal(direction) {
            self.next_direction = direction;
        }
        proof {
            if old(self)@.wf() {
                assert forall|i: int| 0 <= i < self@.snake.len() implies #[trigger] self@.in_bounds(
                    self@.snake[i],
                ) by {
                    assert(old(self)@.in_bounds(old(self)@.snake[i]));
                }
            }
        }
    }

    /// Whether `pos` lies on the board.
    pub fn is_valid(&self, pos: Position) -> (r: bool)
        ensures
            r == self@.in_bounds(pos),
    {
        pos.0 < self.width && pos.1 < self.height && pos.0 >= 0 && pos.1 >= 0
    }

    /// The cells that the snake leaves free, in row-major order.
    pub fn free_positions(&self) -> (r: Vec<Position>)
        requires
            self@.width >= 0,
        ensures
            r@ == self@.free(),
    {
        let mut free: Vec<Position> = Vec::new();
        let mut y: i32 = 0;
        while y < self.height
            invariant
                0 <= y,
                y <= self.height || y == 0,
                self.width >= 0,
                free@ == free_in_rows(self.width as int, self.snake@, y as int),
            decreases self.height - y,
        {
            let mut x: i32 = 0;
            while x < self.width
                invariant
                    0 <= x <= self.width,
                    0 <= y < self.height,
                    free@ == free_in_rows(self.width as int, self.snake@, y as int) + free_in_row(
                        self.snake@,
                        y as int,
                        x as int,
                    ),
                decreases self.width - x,
            {
                let p: Position = (x, y);
                if !occupies(&self.snake, p) {
                    free.push(p);
                }
                proof {
                    let a = free_in_rows(self.width as int, self.snake@, y as int);
                    let b = free_in_row(self.snake@, y as int, x as int);
                    assert((a + b).push(p) =~= a + b.push(p));
                }
                x += 1;
            }
            y += 1;
        }
        assert(free@ == free_in_rows(self.width as int, self.snake@, self.height as int)) by {
            if self.height <= 0 {
                assert(y == 0);
            }
        }
        free
    }

    /// One tick. `pick` is the random index for new food, drawn here when
    /// absent; returns the index that the step stands for.
    fn step(&mut self, pick: Option<usize>) -> (used: usize)
        requires
            old(self)@.finished || (old(self)@.wf() && old(self)@.score < i32::MAX),
        ensures
            final(self)@ == old(self)@.advance(used as int),
            pick matches Some(p) ==> used == p,
    {
        let used: usize = match pick {
            Some(p) => p,
            None => 0,
        };
        if self.finished {
            return used;
        }
        assert(old(self)@.in_bounds(old(self)@.snake[0]));
        self.direction = self.next_direction;
        let (x, y) = self.snake[0];
        let (mut nx, mut ny): (i32, i32) = match self.direction {
            Direction::Up => (x, y - 1),
            Direction::Right => (x + 1, y),
            Direction::Down => (x, y + 1),
            Direction::Left => (x - 1, y),
        };
        if !self.is_valid((nx, ny)) {
            if nx >= self.width {
                nx = 0;
            }
            if ny >= self.height {
                ny = 0;
            }
            if nx < 0 {
                nx = self.width - 1;
            }
            if ny < 0 {
                ny = self.height - 1;
            }
        }
        let head: Position = (nx, ny);
        assert(head == old(self)@.next_head());
        if occupies(&self.snake, head) {
            self.finished = true;
            return used;
        }
        if nx != self.food.0 || ny != self.food.1 {
            self.snake.pop_back();
            self.snake.push_front(head);
            return used;
        }
        self.snake.push_front(head);
        let free = self.free_positions();
        self.score = self.score + 1;
        if free.len() == 0 {
            self.snake.pop_front();
            assert(self.snake@ =~= old(self)@.snake);
            self.finished = true;
            return used;
        }
        let n = free.len();
        let used: usize = match pick {
            Some(p) => p,
            None => random_range(0, n),
        };
        proof {
            if pick is None {
                vstd::arithmetic::div_mod::lemma_small_mod(used as nat, n as nat);
            }
        }
        self.food = free[used % n];
        used
    }

    /// Advances the game by one cell, drawing the index for new food at
    /// random. What holds for every index that could be drawn: the new state
    /// is one tick of the old one. A finished game is left as it is.
    pub fn tick(&mut self)
        requires
            old(self)@.finished || (old(self)@.wf() && old(self)@.score < i32::MAX),
        ensures
            exists|pick: int| 0 <= pick && final(self)@ == old(self)@.advance(pick),
            old(self)@.wf() ==> final(self)@.wf(),
    {
        let used = self.step(None);
        assert(self@ == old(self)@.advance(used as int));
        proof {
            if old(self)@.wf() {
                crate::laws::lemma_tick_keeps_invariant(old(self)@, used as int);
            }
        }
    }

    /// Advances the game by one cell, placing new food, if the snake eats, on
    /// the cell at index `pick`, modulo their number, of those free of the
    /// grown body.
    pub fn tick_with(&mut self, pick: usize)
        requires
            old(self)@.finished || (old(self)@.wf() && old(self)@.score < i32::MAX),
        ensures
            final(self)@ == old(self)@.advance(pick as int),
            old(self)@.wf() ==> final(self)@.wf(),
    {
        self.step(Some(pick));
        proof {
            if old(self)@.wf() {
                crate::laws::lemma_tick_keeps_invariant(old(self)@, pick as int);
            }
        }
    }
}

} // verus!
