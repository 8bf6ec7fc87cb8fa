use std::collections::VecDeque;

use snake_game::game::{Game, Step, TICK_MS};
use snake_game::grid::{is_wall, step, Cell, Direction, Key, HEIGHT, INTERIOR_CELLS, WIDTH};

fn start(food: Cell) -> Game {
    Game::with_food(food).expect("food cell is free")
}

fn cells(g: &Game) -> Vec<Cell> {
    g.snake.iter().copied().collect()
}

fn assert_valid(g: &Game) {
    let s = cells(g);
    assert!(s.len() >= 3);
    for (i, c) in s.iter().enumerate() {
        assert!(c.0 >= 1 && c.0 <= WIDTH - 2 && c.1 >= 1 && c.1 <= HEIGHT - 2);
        for d in &s[i + 1..] {
            assert_ne!(c, d);
        }
    }
    for w in s.windows(2) {
        let dx = (w[0].0 as i32 - w[1].0 as i32).abs();
        let dy = (w[0].1 as i32 - w[1].1 as i32).abs();
        assert_eq!(dx + dy, 1);
    }
    if !g.terminated {
        assert!(!s.contains(&g.food));
        assert!(g.food.0 >= 1 && g.food.0 <= WIDTH - 2 && g.food.1 >= 1 && g.food.1 <= HEIGHT - 2);
        assert_eq!(g.score as usize, 10 * (s.len() - 3));
    }
}

fn state(snake: &[Cell], direction: Direction, food: Cell) -> Game {
    let s: VecDeque<Cell> = snake.iter().copied().collect();
    let score = 10 * (snake.len() as u32 - 3);
    Game { snake: s, direction, food, terminated: false, score }
}

#[test]
fn initial_state() {
    let g = Game::new();
    assert_eq!(cells(&g), vec![(60, 15), (59, 15), (58, 15)]);
    assert_eq!(g.direction, Direction::Right);
    assert_eq!(g.score, 0);
    assert!(!g.terminated);
    assert_valid(&g);
}

#[test]
fn with_food_rejects_wall_and_snake() {
    assert!(Game::with_food((0, 5)).is_none());
    assert!(Game::with_food((5, HEIGHT - 1)).is_none());
    assert!(Game::with_food((59, 15)).is_none());
    assert!(Game::with_food((60, 15)).is_none());
    let g = Game::with_food((63, 15)).unwrap();
    assert_eq!(g.food, (63, 15));
}

#[test]
fn straight_line_consume() {
    let mut g = start((63, 15));
    g.update();
    assert_eq!(g.snake[0], (61, 15));
    assert_eq!(g.snake.len(), 3);
    assert_eq!(g.score, 0);
    g.update();
    assert_eq!(g.snake[0], (62, 15));
    g.update();
    assert_eq!(g.snake[0], (63, 15));
    assert_eq!(g.snake.len(), 4);
    assert_eq!(g.score, 10);
    assert!(!g.terminated);
    assert!(!cells(&g).contains(&g.food));
    assert_valid(&g);
}

#[test]
fn reverse_guard() {
    let mut g = start((63, 15));
    g.handle_key(Key::Left);
    assert_eq!(g.direction, Direction::Right);
    g.update();
    assert_eq!(g.snake[0], (61, 15));
}

#[test]
fn two_step_turn() {
    let mut g = start((63, 15));
    g.handle_key(Key::Up);
    g.handle_key(Key::Left);
    assert_eq!(g.direction, Direction::Left);
    g.update();
    assert!(g.terminated);
    assert_eq!(cells(&g), vec![(60, 15), (59, 15), (58, 15)]);
}

#[test]
fn three_turns_in_one_tick() {
    let mut g = start((63, 15));
    g.handle_key(Key::Up);
    g.handle_key(Key::Left);
    g.handle_key(Key::Down);
    assert_eq!(g.direction, Direction::Down);
}

#[test]
fn wall_collision() {
    let mut g = state(&[(60, 15), (61, 15), (62, 15)], Direction::Left, (5, 5));
    for _ in 0..59 {
        g.update();
        assert!(!g.terminated);
    }
    assert_eq!(g.snake[0], (1, 15));
    g.update();
    assert!(g.terminated);
    assert_eq!(g.score, 0);
    assert_eq!(g.snake[0], (1, 15));
}

#[test]
fn escape_exit() {
    let mut g = start((63, 15));
    let r = g.run_pass(Some(Key::Escape), TICK_MS + 10);
    assert_eq!(r, Step::Exit);
    assert!(g.terminated);
    assert_eq!(cells(&g), vec![(60, 15), (59, 15), (58, 15)]);
}

#[test]
fn run_pass_waits_then_ticks() {
    let mut g = start((63, 15));
    assert_eq!(g.run_pass(None, TICK_MS - 1), Step::Wait);
    assert_eq!(g.snake[0], (60, 15));
    assert_eq!(g.run_pass(Some(Key::Down), TICK_MS), Step::Tick);
    assert_eq!(g.snake[0], (60, 16));
    assert_eq!(g.run_pass(Some(Key::Other), 0), Step::Wait);
}

#[test]
fn food_respawn_uniqueness() {
    for _ in 0..10000 {
        let mut g = start((61, 15));
        g.update();
        assert_eq!(g.score, 10);
        assert!(!g.terminated);
        let f = g.food;
        assert!(f.0 >= 1 && f.0 <= WIDTH - 2 && f.1 >= 1 && f.1 <= HEIGHT - 2);
        assert!(!cells(&g).contains(&f));
    }
}

#[test]
fn random_walk_keeps_invariants() {
    let keys = [Key::Up, Key::Left, Key::Down, Key::Right, Key::Other];
    for seed in 0..40usize {
        let mut g = Game::new();
        let mut k = seed;
        for _ in 0..400 {
            if g.terminated {
                break;
            }
            k = (k * 7 + 3) % 11;
            if k < keys.len() {
                g.handle_key(keys[k]);
            }
            let before = g.snake.len();
            let ate = {
                let h = g.snake[0];
                let n = match g.direction {
                    Direction::Up => (h.0, h.1 - 1),
                    Direction::Down => (h.0, h.1 + 1),
                    Direction::Left => (h.0 - 1, h.1),
                    Direction::Right => (h.0 + 1, h.1),
                };
                n == g.food
            };
            g.update();
            assert_valid(&g);
            if !g.terminated {
                assert_eq!(g.snake.len(), before + if ate { 1 } else { 0 });
            }
        }
    }
}

#[test]
fn reverse_key_leaves_heading() {
    let pairs = [
        (Direction::Up, Key::Down),
        (Direction::Down, Key::Up),
        (Direction::Left, Key::Right),
        (Direction::Right, Key::Left),
    ];
    for (d, k) in pairs {
        let mut g = start((63, 15));
        g.direction = d;
        g.handle_key(k);
        assert_eq!(g.direction, d);
    }
}

#[test]
fn other_key_is_idempotent() {
    let mut g = start((63, 15));
    g.handle_key(Key::Other);
    assert_eq!(g.direction, Direction::Right);
    assert!(!g.terminated);
    g.handle_key(Key::Other);
    assert_eq!(g.direction, Direction::Right);
    assert!(!g.terminated);
    assert_eq!(cells(&g), vec![(60, 15), (59, 15), (58, 15)]);
}

#[test]
fn wall_cells_from_each_side() {
    let cases = [
        (vec![(1, 10), (2, 10), (3, 10)], Direction::Left),
        (vec![(WIDTH - 2, 10), (WIDTH - 3, 10), (WIDTH - 4, 10)], Direction::Right),
        (vec![(10, 1), (10, 2), (10, 3)], Direction::Up),
        (vec![(10, HEIGHT - 2), (10, HEIGHT - 3), (10, HEIGHT - 4)], Direction::Down),
        (vec![(1, 1), (2, 1), (3, 1)], Direction::Up),
        (vec![(1, 1), (1, 2), (1, 3)], Direction::Left),
    ];
    for (s, d) in cases {
        let mut g = state(&s, d, (50, 20));
        g.update();
        assert!(g.terminated);
        assert_eq!(cells(&g), s);
        assert_eq!(g.score, 0);
    }
}

#[test]
fn body_collision_counts_the_tail() {
    // A square loop: the head turns onto the cell the tail is about to leave.
    let s = [(10, 10), (10, 11), (11, 11), (11, 10)];
    let mut g = state(&s, Direction::Right, (50, 20));
    g.update();
    assert!(g.terminated);
    assert_eq!(cells(&g), s.to_vec());
    let mut g = state(&[(10, 10), (10, 11), (11, 11), (11, 10), (12, 10)], Direction::Right, (50, 20));
    g.update();
    assert!(g.terminated);
}

#[test]
fn update_after_end_changes_nothing() {
    let mut g = start((63, 15));
    g.handle_key(Key::Escape);
    g.update();
    assert!(g.terminated);
    assert_eq!(cells(&g), vec![(60, 15), (59, 15), (58, 15)]);
}

fn serpentine() -> Vec<Cell> {
    let mut path = Vec::new();
    for y in 1..HEIGHT - 1 {
        if y % 2 == 1 {
            for x in 1..WIDTH - 1 {
                path.push((x, y));
            }
        } else {
            for x in (1..WIDTH - 1).rev() {
                path.push((x, y));
            }
        }
    }
    path
}

#[test]
fn filling_the_interior_ends_the_game() {
    let path = serpentine();
    assert_eq!(path.len(), INTERIOR_CELLS);
    let food = path[INTERIOR_CELLS - 1];
    let snake: Vec<Cell> = path[..INTERIOR_CELLS - 1].iter().rev().copied().collect();
    assert_eq!(food, (1, HEIGHT - 2));
    let mut g = state(&snake, Direction::Left, food);
    g.update();
    assert!(g.terminated);
    assert_eq!(g.snake.len(), INTERIOR_CELLS);
    assert_eq!(g.snake[0], food);
    assert_eq!(g.score as usize, 10 * (INTERIOR_CELLS - 3));
}

#[test]
fn free_cells_and_food_acceptance() {
    let g = start((63, 15));
    assert_eq!(g.first_free_cell(), Some((1, 1)));
    assert!(g.accepts_food((1, 1)));
    assert!(!g.accepts_food((0, 1)));
    assert!(!g.accepts_food((59, 15)));
    assert!(g.occupies((58, 15)));
    assert!(!g.occupies((57, 15)));
    let path = serpentine();
    let full = state(&path, Direction::Right, (1, 1));
    assert_eq!(full.first_free_cell(), None);
    assert_eq!(full.draw_free_cell(), None);
    let almost = state(&path[1..], Direction::Right, (1, 1));
    assert_eq!(almost.first_free_cell(), Some((1, 1)));
    assert_eq!(almost.draw_free_cell(), Some((1, 1)));
}

#[test]
fn opposite_directions() {
    assert_eq!(Direction::Up.opposite(), Direction::Down);
    assert_eq!(Direction::Down.opposite(), Direction::Up);
    assert_eq!(Direction::Left.opposite(), Direction::Right);
    assert_eq!(Direction::Right.opposite(), Direction::Left);
}

#[test]
fn step_is_not_clamped() {
    assert_eq!(step((1, 1), Direction::Up), (1, 0));
    assert_eq!(step((1, 1), Direction::Left), (0, 1));
    assert_eq!(step((5, 5), Direction::Down), (5, 6));
    assert_eq!(step((5, 5), Direction::Right), (6, 5));
    assert!(is_wall((0, 1)));
    assert!(is_wall((WIDTH - 1, 3)));
    assert!(is_wall((3, HEIGHT - 1)));
    assert!(!is_wall((1, 1)));
}

#[test]
fn random_draws_vary() {
    let g = start((63, 15));
    let first = g.draw_free_cell().unwrap();
    let mut other = false;
    for _ in 0..200 {
        let c = g.draw_free_cell().unwrap();
        assert!(g.accepts_food(c));
        if c != first {
            other = true;
        }
    }
    assert!(other);
}
