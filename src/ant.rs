use vstd::prelude::*;
use crate::field::{Color, Field, color_in, set_in, flat_bit, in_grid, padding_clear};

verus! {

/// The way the ant faces.
#[derive(Debug, Clone, Copy, PartialEq, Eq, Structural)]
pub enum Direction {
    Left,
    Right,
    Up,
    Down,
}

/// The ant: its position (which may lie off the grid once it has left) and
/// the way it faces.
#[derive(Debug, Clone, Copy, PartialEq, Eq, Structural)]
pub struct Ant {
    pub x: i32,
    pub y: i32,
    pub direction: Direction,
}

/// The turn on a `White` cell, a quarter turn one way: Left, Up, Right, Down, Left.
pub open spec fn clockwise(d: Direction) -> Direction {
    match d {
        Direction::Left => Direction::Up,
        Direction::Up => Direction::Right,
        Direction::Right => Direction::Down,
        Direction::Down => Direction::Left,
    }
}

/// The turn on a `Black` cell, the mirror of `clockwise`.
pub open spec fn counter_clockwise(d: Direction) -> Direction {
    match d {
        Direction::Left => Direction::Down,
        Direction::Up => Direction::Left,
        Direction::Right => Direction::Up,
        Direction::Down => Direction::Right,
    }
}

/// The change of `x` for one move in direction `d`.
pub open spec fn dx(d: Direction) -> int {
    match d {
        Direction::Left => -1,
        Direction::Right => 1,
        _ => 0,
    }
}

/// The change of `y` for one move in direction `d`.
pub open spec fn dy(d: Direction) -> int {
    match d {
        Direction::Up => 1,
        Direction::Down => -1,
        _ => 0,
    }
}

/// Whether the ant stands on a cell of a grid of side `size`.
pub open spec fn inside(size: int, a: Ant) -> bool {
    in_grid(size, a.x as int, a.y as int)
}

/// One step of the automaton on a grid of side `size` held in `data`, with the
/// ant on the grid: flip the cell under the ant, turn (clockwise on `White`,
/// the other way on `Black`), then move one cell ahead.
pub open spec fn step_spec(size: int, data: Seq<u8>, a: Ant) -> (Seq<u8>, Ant) {
    let c = color_in(data, size, a.x as int, a.y as int);
    let d = if c == Color::White {
        clockwise(a.direction)
    } else {
        counter_clockwise(a.direction)
    };
    let flipped = if c == Color::White {
        Color::Black
    } else {
        Color::White
    };
    (
        set_in(data, size, a.x as int, a.y as int, flipped),
        Ant { x: (a.x + dx(d)) as i32, y: (a.y + dy(d)) as i32, direction: d },
    )
}

/// The grid and the ant after `n` steps, or after the ant left the grid if
/// that came first.
pub open spec fn walk(size: int, data: Seq<u8>, a: Ant, n: nat) -> (Seq<u8>, Ant)
    decreases n,
{
    if n == 0 {
        (data, a)
    } else {
        let prev = walk(size, data, a, (n - 1) as nat);
        if inside(size, prev.1) {
            step_spec(size, prev.0, prev.1)
        } else {
            prev
        }
    }
}

/// The number of set bits among the first `n` bits of `data`.
pub open spec fn ones(data: Seq<u8>, n: int) -> nat
    decreases n,
{
    if n <= 0 {
        0
    } else {
        ones(data, n - 1) + if flat_bit(data, n - 1) {
            1nat
        } else {
            0nat
        }
    }
}

impl Direction {
    /// The direction after the turn made on a `White` cell.
    pub fn turn_white(self) -> (r: Direction)
        ensures
            r == clockwise(self),
    {
        match self {
            Direction::Left => Direction::Up,
            Direction::Up => Direction::Right,
            Direction::Right => Direction::Down,
            Direction::Down => Direction::Left,
        }
    }

    /// The direction after the turn made on a `Black` cell.
    pub fn turn_black(self) -> (r: Direction)
        ensures
            r == counter_clockwise(self),
    {
        match self {
            Direction::Left => Direction::Down,
            Direction::Up => Direction::Left,
            Direction::Right => Direction::Up,
            Direction::Down => Direction::Right,
        }
    }
}

impl Ant {
    /// The ant at the start: on the center cell `(size / 2, size / 2)`, facing up.
    pub fn start(size: i32) -> (r: Ant)
        requires
            size > 0,
        ensures
            r.x == size / 2,
            r.y == size / 2,
            r.direction == Direction::Up,
            inside(size as int, r),
    {
        Ant { x: size / 2, y: size / 2, direction: Direction::Up }
    }

    /// Whether the ant stands on a cell of a grid of side `size`.
    pub fn is_inside(&self, size: i32) -> (r: bool)
        ensures
            r == inside(size as int, *self),
    {
        self.x >= 0 && self.y >= 0 && self.x < size && self.y < size
    }

    /// The position one cell ahead in direction `d`.
    fn go(&self, d: Direction) -> (r: (i32, i32))
        requires
            -1 <= self.x + dx(d) <= i32::MAX,
            -1 <= self.y + dy(d) <= i32::MAX,
        ensures
            r.0 == self.x + dx(d),
            r.1 == self.y + dy(d),
    {
        match d {
            Direction::Left => (self.x - 1, self.y),
            Direction::Up => (self.x, self.y + 1),
            Direction::Right => (self.x + 1, self.y),
            Direction::Down => (self.x, self.y - 1),
        }
    }
}

/// Makes one step of the automaton with the ant on the grid.
pub fn step(field: &mut Field, ant: &mut Ant)
    requires
        old(field).wf(),
        inside(old(field).size as int, *old(ant)),
    ensures
        final(field).wf(),
        final(field).size == old(field).size,
        (final(field).data@, *final(ant)) == step_spec(old(field).size as int, old(field).data@, *old(ant)),
{
    let color = match field.get(ant.x, ant.y) {
        Ok(c) => c,
        Err(_) => return,
    };
    let (direction, flipped) = match color {
        Color::White => (ant.direction.turn_white(), Color::Black),
        Color::Black => (ant.direction.turn_black(), Color::White),
    };
    let _ = field.set(ant.x, ant.y, flipped);
    let (x, y) = ant.go(direction);
    *ant = Ant { x, y, direction };
}

/// Runs the automaton until the ant leaves the grid or `max_steps` steps were
/// made, and returns the number of steps made.
pub fn run(field: &mut Field, ant: &mut Ant, max_steps: u64) -> (steps: u64)
    requires
        old(field).wf(),
    ensures
        final(field).wf(),
        final(field).size == old(field).size,
        steps <= max_steps,
        (final(field).data@, *final(ant)) == walk(old(field).size as int, old(field).data@, *old(ant), steps as nat),
        steps < max_steps ==> !inside(final(field).size as int, *final(ant)),
        forall|k: nat| k < steps ==> inside(old(field).size as int, #[trigger] walk(old(field).size as int, old(field).data@, *old(ant), k).1),
{
    let ghost size = field.size as int;
    let ghost data0 = field.data@;
    let ghost ant0 = *ant;
    let mut steps: u64 = 0;
    while steps < max_steps && ant.is_inside(field.size)
        invariant
            field.wf(),
            field.size == size,
            steps <= max_steps,
            (field.data@, *ant) == walk(size, data0, ant0, steps as nat),
            forall|k: nat| k < steps ==> inside(size, #[trigger] walk(size, data0, ant0, k).1),
        decreases max_steps - steps,
    {
        step(field, ant);
        steps = steps + 1;
    }
    steps
}

/// The number of `Black` cells of the grid, which is also the number of set
/// bits in its whole buffer.
pub fn count_black(field: &Field) -> (r: u64)
    requires
        field.wf(),
    ensures
        r == ones(field.data@, field.size * field.size),
        r == ones(field.data@, 8 * field.data@.len() as int),
{
    let size = field.size;
    let mut n: u64 = 0;
    let mut i: i32 = 0;
    while i < size
        invariant
            field.wf(),
            size == field.size,
            0 <= i <= size,
            n == ones(field.data@, i * size),
            n <= i * size,
        decreases size - i,
    {
        let mut j: i32 = 0;
        while j < size
            invariant
                field.wf(),
                size == field.size,
                0 <= i < size,
                0 <= j <= size,
                n == ones(field.data@, i * size + j),
                n <= i * size + j,
            decreases size - j,
        {
            proof {
                assert(i * size + j < size * size) by (nonlinear_arith)
                    requires 0 <= i < size, 0 <= j < size;
                assert(size * size < 0x4000_0000_0000_0000) by (nonlinear_arith)
                    requires 0 < size <= 0x7fff_ffff;
            }
            if let Ok(Color::Black) = field.get(i, j) {
                n = n + 1;
            }
            j = j + 1;
        }
        assert((i + 1) * size == i * size + size) by (nonlinear_arith);
        i = i + 1;
    }
    proof {
        lemma_ones_past_padding(field.data@, size * size, 8 * field.data@.len() as int);
    }
    n
}

/// Clear bits past `n` add nothing to the count of set bits.
proof fn lemma_ones_past_padding(data: Seq<u8>, n: int, m: int)
    requires
        0 <= n <= m <= 8 * data.len(),
        padding_clear(data, n),
    ensures
        ones(data, m) == ones(data, n),
    decreases m - n,
{
    if m > n {
        lemma_ones_past_padding(data, n, m - 1);
        assert(!flat_bit(data, m - 1));
    }
}

} // verus!
