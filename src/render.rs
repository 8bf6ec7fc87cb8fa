use vstd::prelude::*;

use crate::game::{Game, same_cell};
use crate::grid::{Cell, WIDTH, HEIGHT};

verus! {

pub const HEAD_GLYPH: char = '●';

pub const BODY_GLYPH: char = '○';

pub const FOOD_GLYPH: char = '★';

pub const HORIZONTAL: char = '─';

pub const VERTICAL: char = '│';

/// Number of rows in a frame: three header rows, the grid, the bottom border
/// and the help line.
pub const FRAME_ROWS: usize = 35;

/// What a grid cell shows: head, body, food, or blank.
pub open spec fn glyph(g: Game, c: Cell) -> char {
    if g.snake@.len() > 0 && c == g.snake@[0] {
        HEAD_GLYPH
    } else if g.snake@.contains(c) {
        BODY_GLYPH
    } else if c == g.food {
        FOOD_GLYPH
    } else {
        ' '
    }
}

pub open spec fn digit_char(d: nat) -> char {
    seq!['0', '1', '2', '3', '4', '5', '6', '7', '8', '9'][d as int]
}

/// The decimal digits of `n`, with leading zeros up to `width` digits.
pub open spec fn decimal(n: nat, width: nat) -> Seq<char>
    decreases n + width,
{
    if n < 10 && width <= 1 {
        seq![digit_char(n)]
    } else {
        decimal(n / 10, if width > 0 {
            (width - 1) as nat
        } else {
            0
        }) + seq![digit_char(n % 10)]
    }
}

/// `n` blanks.
pub open spec fn blanks(n: nat) -> Seq<char> {
    Seq::new(n, |i: int| ' ')
}

/// A horizontal border between two corner glyphs.
pub open spec fn border_row(left: char, right: char) -> Seq<char> {
    seq![left] + Seq::new(WIDTH as nat, |i: int| HORIZONTAL) + seq![right]
}

pub open spec fn title_text() -> Seq<char> {
    seq![VERTICAL, ' ', 'S', 'n', 'a', 'k', 'e', ' ', '-', ' ', 'S', 'c', 'o', 'r', 'e', ':', ' ']
}

/// The title line: the score with at least three digits, padded to the frame's
/// right border.
pub open spec fn title_row(score: u32) -> Seq<char> {
    let t = title_text() + decimal(score as nat, 3);
    t + blanks(if t.len() < WIDTH + 1 { (WIDTH + 1 - t.len()) as nat } else { 0 }) + seq![VERTICAL]
}

pub open spec fn help_row() -> Seq<char> {
    seq!['M', 'o', 'v', 'e', ':', ' ', '↑', ' ', '↓', ' ', '←', ' ', '→', ' ', ' ', 'Q', 'u', 'i', 't', ':', ' ', 'E', 'S', 'C']
}

/// Grid row `y` between two vertical borders.
pub open spec fn field_row(g: Game, y: u16) -> Seq<char> {
    seq![VERTICAL] + Seq::new(WIDTH as nat, |x: int| glyph(g, (x as u16, y))) + seq![VERTICAL]
}

/// The whole frame for state `g`, row by row; grid cell (x, y) stands at
/// row y + 3, column x + 1.
pub open spec fn frame(g: Game) -> Seq<Seq<char>> {
    seq![border_row('┌', '┐'), title_row(g.score), border_row('├', '┤')] + Seq::new(
        HEIGHT as nat,
        |y: int| field_row(g, y as u16),
    ) + seq![border_row('└', '┘'), help_row()]
}

/// The contents of a sequence of rows.
pub open spec fn rows_view(r: Seq<Vec<char>>) -> Seq<Seq<char>> {
    r.map_values(|v: Vec<char>| v@)
}

fn digit(d: u32) -> (r: char)
    requires
        d < 10,
    ensures
        r == digit_char(d as nat),
{
    match d {
        0 => '0',
        1 => '1',
        2 => '2',
        3 => '3',
        4 => '4',
        5 => '5',
        6 => '6',
        7 => '7',
        8 => '8',
        _ => '9',
    }
}

/// Appends the decimal digits of `n`, with leading zeros up to `width` digits.
pub fn push_decimal(out: &mut Vec<char>, n: u32, width: u32)
    ensures
        final(out)@ == old(out)@ + decimal(n as nat, width as nat),
    decreases n + width,
{
    if n < 10 && width <= 1 {
        out.push(digit(n));
    } else {
        let w = if width > 0 {
            width - 1
        } else {
            0
        };
        push_decimal(out, n / 10, w);
        out.push(digit(n % 10));
    }
}

fn border(left: char, right: char) -> (r: Vec<char>)
    ensures
        r@ == border_row(left, right),
{
    let mut row: Vec<char> = Vec::new();
    row.push(left);
    let mut i: u16 = 0;
    while i < WIDTH
        invariant
            i <= WIDTH,
            row@ == seq![left] + Seq::new(i as nat, |j: int| HORIZONTAL),
        decreases WIDTH - i,
    {
        row.push(HORIZONTAL);
        i = i + 1;
        assert(row@ =~= seq![left] + Seq::new(i as nat, |j: int| HORIZONTAL));
    }
    row.push(right);
    assert(row@ =~= border_row(left, right));
    row
}

fn title(score: u32) -> (r: Vec<char>)
    ensures
        r@ == title_row(score),
{
    let mut row: Vec<char> = vec![VERTICAL, ' ', 'S', 'n', 'a', 'k', 'e', ' ', '-', ' ', 'S', 'c', 'o', 'r', 'e', ':', ' '];
    assert(row@ =~= title_text());
    push_decimal(&mut row, score, 3);
    let ghost t = row@;
    let n = row.len();
    while row.len() < WIDTH as usize + 1
        invariant
            t.len() == n,
            n <= row@.len(),
            row@ == t + blanks((row@.len() - n) as nat),
            n < WIDTH + 1 ==> row@.len() <= WIDTH + 1,
            n >= WIDTH + 1 ==> row@.len() == n,
        decreases WIDTH + 1 - row@.len(),
    {
        row.push(' ');
        assert(row@ =~= t + blanks((row@.len() - n) as nat));
    }
    assert(row@ == t + blanks(if t.len() < WIDTH + 1 { (WIDTH + 1 - t.len()) as nat } else { 0 }));
    row.push(VERTICAL);
    assert(row@ =~= title_row(score));
    row
}

fn help() -> (r: Vec<char>)
    ensures
        r@ == help_row(),
{
    let row: Vec<char> = vec!['M', 'o', 'v', 'e', ':', ' ', '↑', ' ', '↓', ' ', '←', ' ', '→', ' ', ' ', 'Q', 'u', 'i', 't', ':', ' ', 'E', 'S', 'C'];
    assert(row@ =~= help_row());
    row
}

impl Game {
    /// The glyph that cell `c` shows.
    pub fn glyph_at(&self, c: Cell) -> (r: char)
        ensures
            r == glyph(*self, c),
    {
        if self.snake.len() > 0 && same_cell(c, self.snake[0]) {
            HEAD_GLYPH
        } else if self.occupies(c) {
            BODY_GLYPH
        } else if same_cell(c, self.food) {
            FOOD_GLYPH
        } else {
            ' '
        }
    }

    fn grid_row(&self, y: u16) -> (r: Vec<char>)
        ensures
            r@ == field_row(*self, y),
    {
        let mut row: Vec<char> = Vec::new();
        row.push(VERTICAL);
        let mut x: u16 = 0;
        while x < WIDTH
            invariant
                x <= WIDTH,
                row@ == seq![VERTICAL] + Seq::new(x as nat, |i: int| glyph(*self, (i as u16, y))),
            decreases WIDTH - x,
        {
            let ch = self.glyph_at((x, y));
            row.push(ch);
            x = x + 1;
            assert(row@ =~= seq![VERTICAL] + Seq::new(x as nat, |i: int| glyph(*self, (i as u16, y))));
        }
        row.push(VERTICAL);
        assert(row@ =~= field_row(*self, y));
        row
    }

    /// The full frame for this state, one row of glyphs per screen line.
    pub fn render(&self) -> (r: Vec<Vec<char>>)
        ensures
            rows_view(r@) == frame(*self),
            r@.len() == FRAME_ROWS,
    {
        let mut rows: Vec<Vec<char>> = Vec::new();
        rows.push(border('┌', '┐'));
        rows.push(title(self.score));
        rows.push(border('├', '┤'));
        let ghost head = seq![border_row('┌', '┐'), title_row(self.score), border_row('├', '┤')];
        assert(rows_view(rows@) =~= head);
        let mut y: u16 = 0;
        while y < HEIGHT
            invariant
                y <= HEIGHT,
                rows_view(rows@) == head + Seq::new(y as nat, |j: int| field_row(*self, j as u16)),
            decreases HEIGHT - y,
        {
            let row = self.grid_row(y);
            let ghost prev = rows@;
            rows.push(row);
            assert(rows_view(rows@) =~= rows_view(prev).push(field_row(*self, y)));
            y = y + 1;
            assert(rows_view(rows@) =~= head + Seq::new(y as nat, |j: int| field_row(*self, j as u16)));
        }
        rows.push(border('└', '┘'));
        rows.push(help());
        assert(rows_view(rows@) =~= frame(*self));
        rows
    }
}

/// A frame depends on the snake, the food and the score alone, so two renders
/// of one state, or of states that agree on those, give the same frame.
pub proof fn lemma_render_deterministic(a: Game, b: Game)
    requires
        a.snake@ == b.snake@,
        a.food == b.food,
        a.score == b.score,
    ensures
        frame(a) == frame(b),
{
    assert forall|y: int| #![trigger field_row(a, y as u16)]
        field_row(a, y as u16) == field_row(b, y as u16) by {
        assert(field_row(a, y as u16) =~= field_row(b, y as u16));
    }
    assert(Seq::new(HEIGHT as nat, |y: int| field_row(a, y as u16)) =~= Seq::new(
        HEIGHT as nat,
        |y: int| field_row(b, y as u16),
    ));
    assert(frame(a) =~= frame(b));
}

} // verus!
