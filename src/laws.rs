use vstd::prelude::*;
use crate::direction::Direction;
use crate::model::{lemma_free_cells, lemma_free_count, moved, wrap, GameView, Position};

verus! {

proof fn lemma_wrap_on_board(c: int, bound: int)
    requires
        bound > 0,
    ensures
        0 <= wrap(c, bound) < bound,
{
}

/// Putting a cell that a duplicate-free body does not hold in front of it, or
/// in front of the body without its tail, keeps it duplicate-free.
proof fn lemma_prepend_distinct(head: Position, body: Seq<Position>)
    requires
        body.no_duplicates(),
        !body.contains(head),
        body.len() > 0,
    ensures
        (seq![head] + body).no_duplicates(),
        (seq![head] + body.drop_last()).no_duplicates(),
{
    let a = seq![head] + body;
    assert forall|i: int, j: int| 0 <= i < a.len() && 0 <= j < a.len() && i != j implies a[i]
        != a[j] by {
        if i > 0 && j > 0 {
            assert(a[i] == body[i - 1] && a[j] == body[j - 1]);
        } else if i == 0 {
            assert(a[j] == body[j - 1]);
        } else {
            assert(a[i] == body[i - 1]);
        }
    }
    let b = seq![head] + body.drop_last();
    assert forall|i: int, j: int| 0 <= i < b.len() && 0 <= j < b.len() && i != j implies b[i]
        != b[j] by {
        assert(b[i] == a[i] && b[j] == a[j]);
    }
}

/// While the game runs, every tick keeps the snake on the board and free of
/// self-overlap.
pub proof fn lemma_tick_keeps_invariant(g: GameView, pick: int)
    requires
        g.wf(),
    ensures
        g.advance(pick).wf(),
{
    if !g.finished {
        let c = moved(g.snake[0], g.next_direction);
        lemma_wrap_on_board(c.0, g.width);
        lemma_wrap_on_board(c.1, g.height);
        let head = g.next_head();
        assert(g.in_bounds(head));
        let r = g.advance(pick);
        if !g.snake.contains(head) && r.snake.len() > 0 && !r.finished {
            lemma_prepend_distinct(head, g.snake);
            assert forall|i: int| 0 <= i < r.snake.len() implies #[trigger] r.in_bounds(r.snake[i]) by {
                if i > 0 {
                    assert(r.snake[i] == g.snake[i - 1]);
                    assert(g.in_bounds(g.snake[i - 1]));
                }
            }
        }
    }
}

/// While the new head does not hit the body, it lies on the board and the
/// grown body is duplicate-free and on the board.
proof fn lemma_grown_on_board(g: GameView)
    requires
        g.wf(),
        !g.finished,
        !g.snake.contains(g.next_head()),
    ensures
        g.in_bounds(g.next_head()),
        g.grown().no_duplicates(),
        forall|i: int|
            0 <= i < g.grown().len() ==> 0 <= #[trigger] g.grown()[i].0 < g.width && 0
                <= g.grown()[i].1 < g.height,
{
    let c = moved(g.snake[0], g.next_direction);
    lemma_wrap_on_board(c.0, g.width);
    lemma_wrap_on_board(c.1, g.height);
    lemma_prepend_distinct(g.next_head(), g.snake);
    assert forall|i: int| 0 <= i < g.grown().len() implies 0 <= #[trigger] g.grown()[i].0 < g.width
        && 0 <= g.grown()[i].1 < g.height by {
        if i > 0 {
            assert(g.grown()[i] == g.snake[i - 1]);
            assert(g.in_bounds(g.snake[i - 1]));
        }
    }
}

/// The new head lies on the board, and while it neither hits the body nor
/// fills the board, the tick does not end the game and places the new head
/// in front.
proof fn lemma_head_placed(g: GameView, pick: int)
    requires
        g.wf(),
        !g.finished,
        !g.snake.contains(g.next_head()),
        g.next_head() == g.food ==> g.snake.len() + 1 < g.width * g.height,
    ensures
        g.in_bounds(g.next_head()),
        !g.advance(pick).finished,
        g.advance(pick).snake[0] == g.next_head(),
        g.advance(pick).direction == g.next_direction,
{
    lemma_grown_on_board(g);
    if g.next_head() == g.food {
        lemma_free_count(g.width, g.height, g.grown());
    }
}

/// Asking for the direction in effect, or for its reverse, changes nothing;
/// so with no other turn pending, the tick after a reversal request keeps the
/// direction.
pub proof fn lemma_reversal_ignored(g: GameView, pick: int)
    ensures
        g.request(g.direction.opposite()) == g,
        g.request(g.direction) == g,
        g.next_direction == g.direction ==> g.request(g.direction.opposite()).advance(pick).direction
            == g.direction,
{
}

/// Leaving the board over an edge re-enters it on the opposite edge, on the
/// same row or column, as long as the new head neither hits the body nor
/// fills the board.
pub proof fn lemma_wrap_at_edges(g: GameView, pick: int)
    requires
        g.wf(),
        !g.finished,
        !g.snake.contains(g.next_head()),
        g.next_head() == g.food ==> g.snake.len() + 1 < g.width * g.height,
    ensures
        ({
            let h = g.snake[0];
            let d = g.next_direction;
            let r = g.advance(pick);
            &&& !r.finished
            &&& d == Direction::Left && h.0 == 0 ==> r.snake[0] == ((g.width - 1) as i32, h.1)
            &&& d == Direction::Right && h.0 == g.width - 1 ==> r.snake[0] == (0i32, h.1)
            &&& d == Direction::Up && h.1 == 0 ==> r.snake[0] == (h.0, (g.height - 1) as i32)
            &&& d == Direction::Down && h.1 == g.height - 1 ==> r.snake[0] == (h.0, 0i32)
        }),
{
    lemma_head_placed(g, pick);
    assert(g.in_bounds(g.snake[0]));
}

/// Eating on a board that the grown body does not fill puts the new head in
/// front of the whole body, so the snake is one cell longer and the score one
/// higher, and moves the food to a board cell that the snake does not occupy;
/// a plain move keeps the length, the score and the food.
pub proof fn lemma_growth(g: GameView, pick: int)
    requires
        g.wf(),
        !g.finished,
        !g.snake.contains(g.next_head()),
        g.next_head() == g.food ==> g.snake.len() + 1 < g.width * g.height,
    ensures
        ({
            let r = g.advance(pick);
            &&& !r.finished
            &&& g.next_head() == g.food ==> {
                &&& r.snake == seq![g.next_head()] + g.snake
                &&& r.snake.len() == g.snake.len() + 1
                &&& r.score == g.score + 1
                &&& r.in_bounds(r.food)
                &&& !r.snake.contains(r.food)
            }
            &&& g.next_head() != g.food ==> {
                &&& r.snake.len() == g.snake.len()
                &&& r.score == g.score
                &&& r.food == g.food
            }
        }),
{
    lemma_head_placed(g, pick);
    let head = g.next_head();
    if head == g.food {
        let free = g.free_after_eating();
        let k = pick % (free.len() as int);
        assert(free.contains(free[k]));
        lemma_free_cells(g.width, g.height, g.grown(), free[k]);
    }
}

/// Eating the last cell that the grown body would leave free wins: the game
/// ends with the score one higher, and the body and the food stay as they
/// were, no new food placed.
pub proof fn lemma_filling_the_board_wins(g: GameView, pick: int)
    requires
        g.wf(),
        !g.finished,
        !g.snake.contains(g.next_head()),
        g.next_head() == g.food,
        g.snake.len() + 1 == g.width * g.height,
    ensures
        ({
            let r = g.advance(pick);
            &&& r.finished
            &&& r.snake == g.snake
            &&& r.food == g.food
            &&& r.score == g.score + 1
        }),
{
    lemma_grown_on_board(g);
    lemma_free_count(g.width, g.height, g.grown());
}

/// Moving into a cell of the body, the tail included, ends the game and
/// leaves the body, the score and the food as they were.
pub proof fn lemma_collision_ends_game(g: GameView, pick: int)
    requires
        !g.finished,
        g.snake.contains(g.next_head()),
    ensures
        ({
            let r = g.advance(pick);
            &&& r.finished
            &&& r.snake == g.snake
            &&& r.score == g.score
            &&& r.food == g.food
        }),
{
}

/// A step of play: a turn request, or a tick whose food draw is the index.
pub enum Input {
    Turn(Direction),
    Tick(int),
}

/// The state after feeding `inputs` to `g` in order.
pub open spec fn play(g: GameView, inputs: Seq<Input>) -> GameView
    decreases inputs.len(),
{
    if inputs.len() == 0 {
        g
    } else {
        let next = match inputs[0] {
            Input::Turn(d) => g.request(d),
            Input::Tick(pick) => g.advance(pick),
        };
        play(next, inputs.drop_first())
    }
}

/// Once the game is over, no sequence of turn requests and ticks changes its
/// state.
pub proof fn lemma_finished_is_terminal(g: GameView, inputs: Seq<Input>)
    requires
        g.finished,
    ensures
        play(g, inputs) == g,
    decreases inputs.len(),
{
    if inputs.len() > 0 {
        lemma_finished_is_terminal(g, inputs.drop_first());
    }
}

} // verus!
