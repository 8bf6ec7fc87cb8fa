use std::collections::VecDeque;
use vstd::prelude::*;

use crate::grid::{
    Cell, Direction, Key, WIDTH, HEIGHT, INTERIOR_CELLS, INITIAL_LEN, FOOD_POINTS, is_interior,
    hits_wall, displaced, key_direction, opposite, adjacent, step, is_wall, lemma_interior_capacity,
};
use crate::random::random_in;

verus! {

/// Random food draws tried before the food is placed on the first free cell
/// in row-major order.
pub const MAX_DRAWS: u32 = 10000;

/// Time between two ticks, in milliseconds.
pub const TICK_MS: u64 = 150;

/// What the main loop does after one pass.
#[derive(Clone, Copy, Debug, PartialEq, Eq, Structural)]
pub enum Step {
    /// Nothing is due: sleep and poll again.
    Wait,
    /// The state advanced by one tick: redraw and restart the tick clock.
    Tick,
    /// The game has ended: leave the loop.
    Exit,
}

/// The whole state of one game.
pub struct Game {
    /// Snake cells, head first.
    pub snake: VecDeque<Cell>,
    pub direction: Direction,
    pub food: Cell,
    pub terminated: bool,
    pub score: u32,
}

/// A position known to lie inside the grid, as a cell.
pub open spec fn to_cell(p: (int, int)) -> Cell {
    (p.0 as u16, p.1 as u16)
}

/// The snake at the start of a game: three cells in a row, head at the
/// centre, body to its left.
pub open spec fn initial_snake() -> Seq<Cell> {
    seq![
        ((WIDTH / 2) as u16, (HEIGHT / 2) as u16),
        ((WIDTH / 2 - 1) as u16, (HEIGHT / 2) as u16),
        ((WIDTH / 2 - 2) as u16, (HEIGHT / 2) as u16),
    ]
}

/// Every interior cell is covered by the snake.
pub open spec fn fills_interior(s: Seq<Cell>) -> bool {
    forall|c: Cell| is_interior(c) ==> s.contains(c)
}

/// The heading after key `k` is processed with heading `d`.
pub open spec fn steer(d: Direction, k: Key) -> Direction {
    match k {
        Key::Up => if d == Direction::Down { d } else { Direction::Up },
        Key::Down => if d == Direction::Up { d } else { Direction::Down },
        Key::Left => if d == Direction::Right { d } else { Direction::Left },
        Key::Right => if d == Direction::Left { d } else { Direction::Right },
        _ => d,
    }
}

/// The state after key `k` is processed in state `g`.
pub open spec fn after_key(g: Game, k: Key) -> Game {
    Game {
        direction: steer(g.direction, k),
        terminated: g.terminated || k == Key::Escape,
        ..g
    }
}

/// Cell equality, compared coordinate by coordinate.
pub fn same_cell(a: Cell, b: Cell) -> (r: bool)
    ensures
        r == (a == b),
{
    a.0 == b.0 && a.1 == b.1
}

/// How one tick relates the state before it to the state after it.
pub open spec fn ticked(pre: Game, post: Game) -> bool {
    &&& pre.terminated ==> post == pre
    &&& !pre.terminated && pre.collides() ==> post == (Game { terminated: true, ..pre })
    &&& !pre.terminated && !pre.collides() ==> {
        &&& post.snake@ == pre.moved_snake()
        &&& post.direction == pre.direction
        &&& post.score == pre.score + if pre.eats() {
            FOOD_POINTS
        } else {
            0
        }
        &&& !pre.eats() ==> post.food == pre.food && !post.terminated
        &&& pre.eats() ==> (post.terminated <==> post.snake@.len() == INTERIOR_CELLS)
    }
}

/// The state after an optional polled key is processed.
pub open spec fn after_poll(g: Game, key: Option<Key>) -> Game {
    match key {
        Some(k) => after_key(g, k),
        None => g,
    }
}

impl Game {
    /// The invariant that holds after every completed transition.
    pub open spec fn wf(&self) -> bool {
        let s = self.snake@;
        &&& INITIAL_LEN <= s.len() <= INTERIOR_CELLS
        &&& !self.terminated ==> s.len() < INTERIOR_CELLS
        &&& forall|i: int| 0 <= i < s.len() ==> is_interior(#[trigger] s[i])
        &&& s.no_duplicates()
        &&& forall|i: int| 0 <= i < s.len() - 1 ==> adjacent(#[trigger] s[i], s[i + 1])
        &&& is_interior(self.food)
        &&& !self.terminated ==> !s.contains(self.food)
        &&& self.score == FOOD_POINTS * (s.len() - INITIAL_LEN)
    }

    pub open spec fn head(&self) -> Cell {
        self.snake@[0]
    }

    /// Where the head goes on the next tick.
    pub open spec fn next_head(&self) -> (int, int) {
        displaced(self.head(), self.direction)
    }

    /// The next tick runs into the wall ring or into the snake itself; the
    /// tail counts as occupied although it would move away this tick.
    pub open spec fn collides(&self) -> bool {
        hits_wall(self.next_head()) || self.snake@.contains(to_cell(self.next_head()))
    }

    /// The next tick lands on the food.
    pub open spec fn eats(&self) -> bool {
        to_cell(self.next_head()) == self.food
    }

    /// The snake after a tick that does not collide.
    pub open spec fn moved_snake(&self) -> Seq<Cell> {
        if self.eats() {
            seq![to_cell(self.next_head())] + self.snake@
        } else {
            seq![to_cell(self.next_head())] + self.snake@.drop_last()
        }
    }

    /// Whether the snake covers `c`.
    pub fn occupies(&self, c: Cell) -> (r: bool)
        ensures
            r == self.snake@.contains(c),
    {
        let n = self.snake.len();
        let mut i: usize = 0;
        while i < n
            invariant
                n == self.snake@.len(),
                i <= n,
                forall|j: int| 0 <= j < i ==> self.snake@[j] != c,
            decreases n - i,
        {
            if same_cell(self.snake[i], c) {
                return true;
            }
            i = i + 1;
        }
        false
    }

    /// Whether food may be put on `c`: an interior cell that the snake does not cover.
    pub fn accepts_food(&self, c: Cell) -> (r: bool)
        ensures
            r == (is_interior(c) && !self.snake@.contains(c)),
    {
        !is_wall(c) && !self.occupies(c)
    }

    /// The first interior cell, in row-major order, that the snake does not cover.
    pub fn first_free_cell(&self) -> (r: Option<Cell>)
        ensures
            match r {
                Some(c) => is_interior(c) && !self.snake@.contains(c),
                None => fills_interior(self.snake@),
            },
    {
        let mut y: u16 = 1;
        while y < HEIGHT - 1
            invariant
                1 <= y <= HEIGHT - 1,
                forall|c: Cell| is_interior(c) && c.1 < y ==> #[trigger] self.snake@.contains(c),
            decreases HEIGHT - 1 - y,
        {
            let mut x: u16 = 1;
            while x < WIDTH - 1
                invariant
                    1 <= y < HEIGHT - 1,
                    1 <= x <= WIDTH - 1,
                    forall|c: Cell| is_interior(c) && c.1 < y ==> #[trigger] self.snake@.contains(c),
                    forall|c: Cell|
                        is_interior(c) && c.1 == y && c.0 < x ==> #[trigger] self.snake@.contains(c),
                decreases WIDTH - 1 - x,
            {
                if !self.occupies((x, y)) {
                    return Some((x, y));
                }
                x = x + 1;
            }
            y = y + 1;
        }
        None
    }

    /// A cell for new food: interior cells are drawn at random until one is free
    /// of the snake; after `MAX_DRAWS` misses the first free cell in row-major
    /// order is taken. `None` when the snake covers the whole interior.
    pub fn draw_free_cell(&self) -> (r: Option<Cell>)
        ensures
            match r {
                Some(c) => is_interior(c) && !self.snake@.contains(c),
                None => fills_interior(self.snake@),
            },
    {
        let mut draws: u32 = 0;
        while draws < MAX_DRAWS
            invariant
                draws <= MAX_DRAWS,
            decreases MAX_DRAWS - draws,
        {
            let c = (random_in(1, WIDTH - 1), random_in(1, HEIGHT - 1));
            if self.accepts_food(c) {
                return Some(c);
            }
            draws = draws + 1;
        }
        self.first_free_cell()
    }

    /// One tick: the head moves one cell along the heading. A move into the wall
    /// ring or onto any snake cell ends the game and changes nothing else. A move
    /// onto the food grows the snake, scores, and places new food on a free cell;
    /// the game ends instead when no interior cell is left free. Any other move
    /// drops the tail. A game that has ended stays as it is.
    pub fn update(&mut self)
        requires
            old(self).wf(),
        ensures
            final(self).wf(),
            ticked(*old(self), *final(self)),
            final(self).snake@.no_duplicates(),
            !final(self).terminated ==> final(self).snake@.len() == old(self).snake@.len() + if old(
                self,
            ).eats() {
                1int
            } else {
                0int
            },
            !final(self).terminated ==> !final(self).snake@.contains(final(self).food),
            !final(self).terminated ==> is_interior(final(self).head()),
    {
        if self.terminated {
            return;
        }
        let ghost s = self.snake@;
        let head = self.snake[0];
        let nh = step(head, self.direction);
        if is_wall(nh) || self.occupies(nh) {
            self.terminated = true;
            return;
        }
        assert(to_cell(old(self).next_head()) == nh);
        self.snake.push_front(nh);
        proof {
            let t = self.snake@;
            assert(t == seq![nh] + s);
            assert forall|i: int, j: int| 0 <= i < t.len() && 0 <= j < t.len() && i != j implies t[i]
                != t[j] by {
                if i == 0 {
                    assert(t[j] == s[j - 1]);
                } else if j == 0 {
                    assert(t[i] == s[i - 1]);
                } else {
                    assert(t[i] == s[i - 1] && t[j] == s[j - 1]);
                }
            }
            assert forall|i: int| 0 <= i < t.len() - 1 implies adjacent(#[trigger] t[i], t[i + 1]) by {
                if i > 0 {
                    assert(t[i] == s[i - 1] && t[i + 1] == s[i]);
                }
            }
            assert forall|i: int| 0 <= i < t.len() implies is_interior(#[trigger] t[i]) by {
                if i > 0 {
                    assert(t[i] == s[i - 1]);
                }
            }
        }
        if same_cell(nh, self.food) {
            self.score = self.score + FOOD_POINTS;
            if self.snake.len() == INTERIOR_CELLS {
                self.terminated = true;
            } else {
                match self.draw_free_cell() {
                    Some(c) => {
                        self.food = c;
                    },
                    None => {
                        proof {
                            lemma_interior_capacity(self.snake@);
                        }
                        self.terminated = true;
                    },
                }
            }
        } else {
            let ghost t = self.snake@;
            self.snake.pop_back();
            proof {
                let u = self.snake@;
                assert(u == t.drop_last());
                assert forall|i: int| 0 <= i < u.len() implies is_interior(#[trigger] u[i]) by {
                    assert(u[i] == t[i]);
                }
                assert forall|i: int| 0 <= i < u.len() - 1 implies adjacent(#[trigger] u[i], u[i + 1]) by {
                    assert(u[i] == t[i] && u[i + 1] == t[i + 1]);
                }
                assert forall|i: int, j: int| 0 <= i < u.len() && 0 <= j < u.len() && i != j implies u[i]
                    != u[j] by {
                    assert(u[i] == t[i] && u[j] == t[j]);
                }
                assert(u =~= seq![nh] + s.drop_last());
                if u.contains(self.food) {
                    let k = choose|k: int| 0 <= k < u.len() && u[k] == self.food;
                    if k > 0 {
                        assert(s[k - 1] == self.food);
                    }
                }
            }
        }
    }

    /// A game at its start, with the food on `food`; `None` when `food` is not
    /// an interior cell free of the initial snake.
    pub fn with_food(food: Cell) -> (r: Option<Game>)
        ensures
            r is Some <==> (is_interior(food) && !initial_snake().contains(food)),
            r matches Some(g) ==> {
                &&& g.wf()
                &&& g.snake@ == initial_snake()
                &&& g.direction == Direction::Right
                &&& g.food == food
                &&& g.score == 0
                &&& !g.terminated
            },
    {
        let mut snake: VecDeque<Cell> = VecDeque::new();
        snake.push_back((WIDTH / 2, HEIGHT / 2));
        snake.push_back((WIDTH / 2 - 1, HEIGHT / 2));
        snake.push_back((WIDTH / 2 - 2, HEIGHT / 2));
        let g = Game { snake, direction: Direction::Right, food, terminated: false, score: 0 };
        assert(g.snake@ =~= initial_snake());
        if g.accepts_food(food) {
            Some(g)
        } else {
            None
        }
    }

    /// A game at its start, with the food on a random free cell.
    pub fn new() -> (g: Game)
        ensures
            g.wf(),
            g.snake@ == initial_snake(),
            g.direction == Direction::Right,
            g.score == 0,
            !g.terminated,
    {
        let mut snake: VecDeque<Cell> = VecDeque::new();
        snake.push_back((WIDTH / 2, HEIGHT / 2));
        snake.push_back((WIDTH / 2 - 1, HEIGHT / 2));
        snake.push_back((WIDTH / 2 - 2, HEIGHT / 2));
        let mut g = Game { snake, direction: Direction::Right, food: (1, 1), terminated: false, score: 0 };
        assert(g.snake@ =~= initial_snake());
        match g.draw_free_cell() {
            Some(c) => {
                g.food = c;
            },
            None => {
                assert(!g.snake@.contains((1u16, 1u16)));
            },
        }
        g
    }

    /// Applies one key: an arrow turns the heading unless it points opposite
    /// to the current heading; Escape ends the game; any other key does nothing.
    pub fn handle_key(&mut self, key: Key)
        ensures
            *final(self) == after_key(*old(self), key),
    {
        match key {
            Key::Up => {
                if self.direction != Direction::Down {
                    self.direction = Direction::Up;
                }
            },
            Key::Down => {
                if self.direction != Direction::Up {
                    self.direction = Direction::Down;
                }
            },
            Key::Left => {
                if self.direction != Direction::Right {
                    self.direction = Direction::Left;
                }
            },
            Key::Right => {
                if self.direction != Direction::Left {
                    self.direction = Direction::Right;
                }
            },
            Key::Escape => {
                self.terminated = true;
            },
            Key::Other => {},
        }
    }

    /// One pass of the main loop: the polled key, if any, is processed first;
    /// an ended game then exits without a further tick; otherwise a tick runs
    /// once `elapsed_ms` since the last tick has reached `TICK_MS`.
    pub fn run_pass(&mut self, key: Option<Key>, elapsed_ms: u64) -> (r: Step)
        requires
            old(self).wf(),
        ensures
            final(self).wf(),
            after_poll(*old(self), key).terminated ==> r == Step::Exit && *final(self) == after_poll(
                *old(self),
                key,
            ),
            !after_poll(*old(self), key).terminated && elapsed_ms < TICK_MS ==> r == Step::Wait
                && *final(self) == after_poll(*old(self), key),
            !after_poll(*old(self), key).terminated && elapsed_ms >= TICK_MS ==> r == Step::Tick
                && ticked(after_poll(*old(self), key), *final(self)),
    {
        match key {
            Some(k) => {
                proof {
                    lemma_key_keeps_wf(*self, k);
                }
                self.handle_key(k);
            },
            None => {},
        }
        if self.terminated {
            Step::Exit
        } else if elapsed_ms < TICK_MS {
            Step::Wait
        } else {
            self.update();
            Step::Tick
        }
    }
}

/// Processing a key keeps the state invariant.
pub proof fn lemma_key_keeps_wf(g: Game, k: Key)
    requires
        g.wf(),
    ensures
        after_key(g, k).wf(),
{
}

/// An arrow key that points opposite to the heading leaves the heading as it is.
pub proof fn lemma_reverse_key_ignored(g: Game, k: Key)
    requires
        key_direction(k) == Some(opposite(g.direction)),
    ensures
        after_key(g, k).direction == g.direction,
        after_key(g, k) == g,
{
}

/// Processing the same key twice in a row has the effect of processing it once;
/// a key that is neither an arrow nor Escape changes nothing at all.
pub proof fn lemma_key_idempotent(g: Game, k: Key)
    ensures
        after_key(after_key(g, k), k) == after_key(g, k),
        k == Key::Other ==> after_key(g, k) == g,
{
}

/// In every valid state the score is the food points times the growth of the
/// snake beyond its initial length; `new`, `with_food`, `update` and
/// `handle_key` all yield valid states.
pub proof fn lemma_score_tracks_length(g: Game)
    requires
        g.wf(),
    ensures
        g.score == FOOD_POINTS * (g.snake@.len() - INITIAL_LEN),
{
}

/// A tick whose head would step onto the wall ring ends the game and leaves
/// the snake and the score as they were.
pub proof fn lemma_wall_step_ends_game(g: Game, post: Game)
    requires
        g.wf(),
        !g.terminated,
        hits_wall(g.next_head()),
        ticked(g, post),
    ensures
        post.terminated,
        post.snake@ == g.snake@,
        post.score == g.score,
{
}

/// A tick whose head would step onto any cell of the snake, the tail included,
/// ends the game and leaves the snake and the score as they were.
pub proof fn lemma_body_step_ends_game(g: Game, post: Game, i: int)
    requires
        g.wf(),
        !g.terminated,
        0 <= i < g.snake@.len(),
        g.snake@[i] == to_cell(g.next_head()),
        ticked(g, post),
    ensures
        post.terminated,
        post.snake@ == g.snake@,
        post.score == g.score,
{
}

} // verus!
