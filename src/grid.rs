use vstd::prelude::*;

verus! {

/// Width of the grid in cells, wall ring included.
pub const WIDTH: u16 = 120;

/// Height of the grid in cells, wall ring included.
pub const HEIGHT: u16 = 30;

/// Number of cells strictly inside the wall ring.
pub const INTERIOR_CELLS: usize = 3304;

/// Length of the snake at the start of a game.
pub const INITIAL_LEN: usize = 3;

/// Points awarded for each piece of food eaten.
pub const FOOD_POINTS: u32 = 10;

/// A grid square as (x, y); x grows rightwards and y downwards.
pub type Cell = (u16, u16);

#[derive(Clone, Copy, Debug, PartialEq, Eq, Structural)]
pub enum Direction {
    Up,
    Down,
    Left,
    Right,
}

/// A key event as the input layer reports it.
#[derive(Clone, Copy, Debug, PartialEq, Eq, Structural)]
pub enum Key {
    Up,
    Down,
    Left,
    Right,
    Escape,
    Other,
}

pub open spec fn opposite(d: Direction) -> Direction {
    match d {
        Direction::Up => Direction::Down,
        Direction::Down => Direction::Up,
        Direction::Left => Direction::Right,
        Direction::Right => Direction::Left,
    }
}

/// The heading that an arrow key asks for.
pub open spec fn key_direction(k: Key) -> Option<Direction> {
    match k {
        Key::Up => Some(Direction::Up),
        Key::Down => Some(Direction::Down),
        Key::Left => Some(Direction::Left),
        Key::Right => Some(Direction::Right),
        _ => None,
    }
}

/// Cells strictly inside the wall ring.
pub open spec fn is_interior(c: Cell) -> bool {
    1 <= c.0 <= WIDTH - 2 && 1 <= c.1 <= HEIGHT - 2
}

/// Cells of the wall ring, or beyond it.
pub open spec fn hits_wall(p: (int, int)) -> bool {
    p.0 <= 0 || p.0 >= WIDTH - 1 || p.1 <= 0 || p.1 >= HEIGHT - 1
}

/// The cell one step from `c` in direction `d`, without any clamping.
pub open spec fn displaced(c: Cell, d: Direction) -> (int, int) {
    match d {
        Direction::Up => (c.0 as int, c.1 - 1),
        Direction::Down => (c.0 as int, c.1 + 1),
        Direction::Left => (c.0 - 1, c.1 as int),
        Direction::Right => (c.0 + 1, c.1 as int),
    }
}

/// Two cells that differ by exactly one in exactly one coordinate.
pub open spec fn adjacent(a: Cell, b: Cell) -> bool {
    (a.0 == b.0 && (a.1 == b.1 + 1 || b.1 == a.1 + 1)) || (a.1 == b.1 && (a.0 == b.0 + 1 || b.0
        == a.0 + 1))
}

impl Direction {
    /// The direction that points the other way.
    pub fn opposite(self) -> (r: Direction)
        ensures
            r == opposite(self),
    {
        match self {
            Direction::Up => Direction::Down,
            Direction::Down => Direction::Up,
            Direction::Left => Direction::Right,
            Direction::Right => Direction::Left,
        }
    }
}

/// The cell one step from an interior cell; never clamped, so a step into the
/// wall ring lands on the wall cell itself.
pub fn step(c: Cell, d: Direction) -> (r: Cell)
    requires
        is_interior(c),
    ensures
        r.0 as int == displaced(c, d).0,
        r.1 as int == displaced(c, d).1,
{
    match d {
        Direction::Up => (c.0, c.1 - 1),
        Direction::Down => (c.0, c.1 + 1),
        Direction::Left => (c.0 - 1, c.1),
        Direction::Right => (c.0 + 1, c.1),
    }
}

/// Whether a cell lies on the wall ring or outside it.
pub fn is_wall(c: Cell) -> (r: bool)
    ensures
        r == hits_wall((c.0 as int, c.1 as int)),
{
    c.0 == 0 || c.0 >= WIDTH - 1 || c.1 == 0 || c.1 >= HEIGHT - 1
}

/// The interior cell with row-major index `k`, for `0 <= k < INTERIOR_CELLS`.
pub open spec fn interior_cell(k: int) -> Cell {
    ((k % (WIDTH - 2) + 1) as u16, (k / (WIDTH - 2) + 1) as u16)
}

/// All interior cells in row-major order.
pub open spec fn interior_cells() -> Seq<Cell> {
    Seq::new(INTERIOR_CELLS as nat, |k: int| interior_cell(k))
}

proof fn lemma_interior_cell_index(c: Cell)
    requires
        is_interior(c),
    ensures
        0 <= (c.1 - 1) * (WIDTH - 2) + (c.0 - 1) < INTERIOR_CELLS,
        interior_cell((c.1 - 1) * (WIDTH - 2) + (c.0 - 1)) == c,
{
    let k = (c.1 - 1) * (WIDTH - 2) + (c.0 - 1);
    assert(0 <= k < INTERIOR_CELLS) by (nonlinear_arith)
        requires
            1 <= c.0 <= WIDTH - 2,
            1 <= c.1 <= HEIGHT - 2,
            k == (c.1 - 1) * (WIDTH - 2) + (c.0 - 1),
    ;
    vstd::arithmetic::div_mod::lemma_fundamental_div_mod_converse(
        k,
        (WIDTH - 2) as int,
        c.1 - 1,
        c.0 - 1,
    );
}

/// `interior_cells` lists each interior cell exactly once, and nothing else.
pub proof fn lemma_interior_cells()
    ensures
        interior_cells().no_duplicates(),
        interior_cells().len() == INTERIOR_CELLS,
        forall|c: Cell| #[trigger] interior_cells().contains(c) <==> is_interior(c),
{
    let all = interior_cells();
    assert forall|k: int| 0 <= k < all.len() implies is_interior(#[trigger] all[k]) by {
        vstd::arithmetic::div_mod::lemma_fundamental_div_mod(k, (WIDTH - 2) as int);
        assert(0 <= k % (WIDTH - 2) < WIDTH - 2);
        assert(0 <= k / (WIDTH - 2) < HEIGHT - 2) by (nonlinear_arith)
            requires
                0 <= k < INTERIOR_CELLS,
                k == (WIDTH - 2) * (k / (WIDTH - 2)) + k % (WIDTH - 2),
                0 <= k % (WIDTH - 2) < WIDTH - 2,
        ;
    }
    assert forall|i: int, j: int| 0 <= i < all.len() && 0 <= j < all.len() && i != j implies all[i]
        != all[j] by {
        vstd::arithmetic::div_mod::lemma_fundamental_div_mod(i, (WIDTH - 2) as int);
        vstd::arithmetic::div_mod::lemma_fundamental_div_mod(j, (WIDTH - 2) as int);
        assert(0 <= i / (WIDTH - 2) < HEIGHT - 2) by (nonlinear_arith)
            requires
                0 <= i < INTERIOR_CELLS,
                i == (WIDTH - 2) * (i / (WIDTH - 2)) + i % (WIDTH - 2),
                0 <= i % (WIDTH - 2) < WIDTH - 2,
        ;
        assert(0 <= j / (WIDTH - 2) < HEIGHT - 2) by (nonlinear_arith)
            requires
                0 <= j < INTERIOR_CELLS,
                j == (WIDTH - 2) * (j / (WIDTH - 2)) + j % (WIDTH - 2),
                0 <= j % (WIDTH - 2) < WIDTH - 2,
        ;
    }
    assert forall|c: Cell| #[trigger] all.contains(c) <==> is_interior(c) by {
        if is_interior(c) {
            lemma_interior_cell_index(c);
            assert(all[(c.1 - 1) * (WIDTH - 2) + (c.0 - 1)] == c);
        }
    }
}

/// A snake of distinct interior cells is never longer than the interior, and
/// covers the whole interior exactly when its length equals the interior's size.
pub proof fn lemma_interior_capacity(s: Seq<Cell>)
    requires
        s.no_duplicates(),
        forall|i: int| 0 <= i < s.len() ==> is_interior(#[trigger] s[i]),
    ensures
        s.len() <= INTERIOR_CELLS,
        (forall|c: Cell| is_interior(c) ==> s.contains(c)) <==> s.len() == INTERIOR_CELLS,
{
    lemma_interior_cells();
    let all = interior_cells();
    let a = all.to_set();
    let b = s.to_set();
    all.unique_seq_to_set();
    s.unique_seq_to_set();
    assert(b.subset_of(a)) by {
        assert forall|c: Cell| b.contains(c) implies a.contains(c) by {
            assert(s.contains(c));
            let i = choose|i: int| 0 <= i < s.len() && s[i] == c;
            assert(is_interior(s[i]));
            assert(all.contains(c));
        }
    }
    vstd::set_lib::lemma_len_subset(b, a);
    if forall|c: Cell| is_interior(c) ==> s.contains(c) {
        assert(a.subset_of(b)) by {
            assert forall|c: Cell| a.contains(c) implies b.contains(c) by {
                assert(all.contains(c));
                assert(s.contains(c));
            }
        }
        vstd::set_lib::lemma_len_subset(a, b);
    }
    if s.len() == INTERIOR_CELLS {
        vstd::set_lib::lemma_subset_equality(b, a);
        assert forall|c: Cell| is_interior(c) implies s.contains(c) by {
            assert(all.contains(c));
            assert(a.contains(c));
            assert(b.contains(c));
        }
    }
}

} // verus!
