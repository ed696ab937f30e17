//! Conway's game of life on a square board whose edges wrap around.
use vstd::prelude::*;

verus! {

/// Side of the board.
pub const SIZE: usize = 35;

pub type Position = (usize, usize);

/// Whether a cell lives.
#[derive(Clone, Copy, Debug, PartialEq, Eq, Structural)]
pub enum State {
    Live,
    Dead,
}

impl State {
    /// 1 for a live cell, 0 for a dead one.
    pub open spec fn count(self) -> nat {
        if self is Live {
            1
        } else {
            0
        }
    }

    pub fn as_usize(&self) -> (r: usize)
        ensures
            r == self.count(),
    {
        match self {
            State::Dead => 0,
            State::Live => 1,
        }
    }

    /// The character a cell is drawn with: `*` when it lives.
    pub fn glyph(&self) -> (r: char)
        ensures
            r == (if *self is Live {
                '*'
            } else {
                ' '
            }),
    {
        match self {
            State::Live => '*',
            State::Dead => ' ',
        }
    }
}

impl Default for State {
    fn default() -> (r: State)
        ensures
            r == State::Dead,
    {
        State::Dead
    }
}

/// One cell of the board and where it stands.
#[derive(Clone, Copy, Debug)]
pub struct Cell {
    pub state: State,
    pub position: Position,
}

impl Default for Cell {
    fn default() -> (r: Cell)
        ensures
            r == (Cell { state: State::Dead, position: (0, 0) }),
    {
        Cell { state: State::Dead, position: (0, 0) }
    }
}

/// The board: `SIZE` rows of `SIZE` cells.
pub struct Grid {
    cells: Vec<Vec<Cell>>,
}

/// The state that the rule gives a cell in `s` with `n` live neighbours: a
/// live cell survives with two or three, a dead one comes alive with three.
pub open spec fn rule(s: State, n: nat) -> State {
    match s {
        State::Live => if n == 2 || n == 3 {
            State::Live
        } else {
            State::Dead
        },
        State::Dead => if n == 3 {
            State::Live
        } else {
            State::Dead
        },
    }
}

/// `x` brought onto the board, wrapping around its edges.
pub open spec fn wrap(x: int) -> int {
    x % (SIZE as int)
}

/// The state seeded by `seed`: live when it is even.
pub open spec fn seeded(seed: u128) -> State {
    if seed % 2 == 0 {
        State::Live
    } else {
        State::Dead
    }
}

impl Grid {
    /// `SIZE` rows of `SIZE` cells, each knowing its own position.
    pub closed spec fn wf(&self) -> bool {
        &&& self.cells.len() == SIZE
        &&& forall|r: int| 0 <= r < SIZE ==> (#[trigger] self.cells@[r]).len() == SIZE
        &&& forall|r: int, c: int|
            0 <= r < SIZE && 0 <= c < SIZE ==> (#[trigger] self.cells@[r]@[c]).position == (
                r as usize,
                c as usize,
            )
    }

    /// The state of the cell at (`r`, `c`).
    pub closed spec fn state(&self, r: int, c: int) -> State {
        self.cells@[r]@[c].state
    }

    /// The `k`-th of the nine squares around and at (`r`, `c`), counting row
    /// by row from the top left, as a count of 1 when it lives.
    pub open spec fn around(&self, r: int, c: int, k: int) -> nat {
        if k == 4 {
            0
        } else {
            self.state(wrap(r + k / 3 - 1 + SIZE), wrap(c + k % 3 - 1 + SIZE)).count()
        }
    }

    /// The live cells among the first `k` of the nine squares around and at
    /// (`r`, `c`), the centre excluded.
    pub open spec fn live_among(&self, r: int, c: int, k: int) -> nat
        decreases k,
    {
        if k <= 0 {
            0
        } else {
            self.live_among(r, c, k - 1) + self.around(r, c, k - 1)
        }
    }

    /// The live neighbours of (`r`, `c`), edges wrapping around.
    pub open spec fn neighbours(&self, r: int, c: int) -> nat {
        self.live_among(r, c, 9)
    }

    /// A board whose cell at (`r`, `c`) is seeded by `seeds[r * SIZE + c]`.
    pub fn new(seeds: &Vec<u128>) -> (g: Grid)
        requires
            seeds.len() == SIZE * SIZE,
        ensures
            g.wf(),
            forall|r: int, c: int|
                0 <= r < SIZE && 0 <= c < SIZE ==> #[trigger] g.state(r, c) == seeded(
                    seeds@[r * SIZE + c],
                ),
    {
        let mut cells: Vec<Vec<Cell>> = Vec::new();
        for row in 0..SIZE
            invariant
                seeds.len() == SIZE * SIZE,
                cells.len() == row,
                forall|r: int| 0 <= r < row ==> (#[trigger] cells@[r]).len() == SIZE,
                forall|r: int, c: int|
                    0 <= r < row && 0 <= c < SIZE ==> (#[trigger] cells@[r]@[c]) == Cell::new_spec(
                        (r as usize, c as usize),
                        seeds@[r * SIZE + c],
                    ),
        {
            let mut line: Vec<Cell> = Vec::new();
            for col in 0..SIZE
                invariant
                    seeds.len() == SIZE * SIZE,
                    row < SIZE,
                    line.len() == col,
                    forall|c: int|
                        0 <= c < col ==> (#[trigger] line@[c]) == Cell::new_spec(
                            (row, c as usize),
                            seeds@[row * SIZE + c],
                        ),
            {
                assert(row * SIZE + col < SIZE * SIZE) by (nonlinear_arith)
                    requires
                        row < SIZE,
                        col < SIZE,
                ;
                line.push(Cell::new((row, col), seeds[row * SIZE + col]));
            }
            cells.push(line);
        }
        Grid { cells }
    }

    /// The state of the cell at (`r`, `c`).
    pub fn state_at(&self, r: usize, c: usize) -> (s: State)
        requires
            self.wf(),
            r < SIZE,
            c < SIZE,
        ensures
            s == self.state(r as int, c as int),
    {
        self.cells[r][c].state
    }
}

impl Cell {
    pub open spec fn new_spec(position: Position, seed: u128) -> Cell {
        Cell { state: seeded(seed), position }
    }

    /// A cell at `position` whose state is drawn from `seed`.
    pub fn new(position: Position, seed: u128) -> (r: Cell)
        ensures
            r == Cell::new_spec(position, seed),
    {
        let state = if seed % 2 == 0 {
            State::Live
        } else {
            State::Dead
        };
        Cell { state, position }
    }

    /// How many of the eight cells around this one live.
    pub fn live_neighbours(&self, grid: &Grid) -> (n: usize)
        requires
            grid.wf(),
            self.position.0 < SIZE,
            self.position.1 < SIZE,
        ensures
            n == grid.neighbours(self.position.0 as int, self.position.1 as int),
    {
        let (row, col) = self.position;
        let mut live: usize = 0;
        for k in 0..9usize
            invariant
                grid.wf(),
                row < SIZE,
                col < SIZE,
                live == grid.live_among(row as int, col as int, k as int),
                live <= k,
        {
            if k != 4 {
                let r = (row + k / 3 + SIZE - 1) % SIZE;
                let c = (col + k % 3 + SIZE - 1) % SIZE;
                live += grid.state_at(r, c).as_usize();
            }
        }
        live
    }

    /// The state this cell takes in the next generation.
    pub fn calculate_new_state(&self, grid: &Grid) -> (s: State)
        requires
            grid.wf(),
            self.position.0 < SIZE,
            self.position.1 < SIZE,
        ensures
            s == rule(self.state, grid.neighbours(self.position.0 as int, self.position.1 as int)),
    {
        let live_neighbours = self.live_neighbours(grid);
        match self.state {
            State::Live => if live_neighbours == 2 || live_neighbours == 3 {
                self.state
            } else {
                State::Dead
            },
            State::Dead => if live_neighbours == 3 {
                State::Live
            } else {
                self.state
            },
        }
    }

    /// Flips between live and dead.
    pub fn change_state(&mut self)
        ensures
            final(self).position == old(self).position,
            final(self).state == (if old(self).state is Live {
                State::Dead
            } else {
                State::Live
            }),
    {
        match self.state {
            State::Live => self.state = State::Dead,
            State::Dead => self.state = State::Live,
        }
    }

    pub fn is_alive(&self) -> (r: bool)
        ensures
            r == (self.state is Live),
    {
        match self.state {
            State::Live => true,
            State::Dead => false,
        }
    }
}

/// A board and its generation number.
pub struct GameOfLife {
    pub generation: usize,
    pub grid: Grid,
}

impl GameOfLife {
    /// A first generation seeded from `seeds`, one per cell, row by row.
    pub fn new(seeds: &Vec<u128>) -> (g: GameOfLife)
        requires
            seeds.len() == SIZE * SIZE,
        ensures
            g.generation == 1,
            g.grid.wf(),
            forall|r: int, c: int|
                0 <= r < SIZE && 0 <= c < SIZE ==> #[trigger] g.grid.state(r, c) == seeded(
                    seeds@[r * SIZE + c],
                ),
    {
        GameOfLife { grid: Grid::new(seeds), generation: 1 }
    }

    /// The board after one step of the rule, each cell taken from its state
    /// and its neighbours on this board.
    pub fn compute_new_generation(&mut self) -> (ng: GameOfLife)
        requires
            old(self).grid.wf(),
        ensures
            final(self).generation == old(self).generation,
            final(self).grid == old(self).grid,
            ng.generation == 1,
            ng.grid.wf(),
            forall|r: int, c: int|
                0 <= r < SIZE && 0 <= c < SIZE ==> #[trigger] ng.grid.state(r, c) == rule(
                    old(self).grid.state(r, c),
                    old(self).grid.neighbours(r, c),
                ),
    {
        let mut cells: Vec<Vec<Cell>> = Vec::new();
        for row in 0..SIZE
            invariant
                self.grid.wf(),
                cells.len() == row,
                forall|r: int| 0 <= r < row ==> (#[trigger] cells@[r]).len() == SIZE,
                forall|r: int, c: int|
                    0 <= r < row && 0 <= c < SIZE ==> (#[trigger] cells@[r]@[c]) == (Cell {
                        state: rule(self.grid.state(r, c), self.grid.neighbours(r, c)),
                        position: (r as usize, c as usize),
                    }),
        {
            let mut line: Vec<Cell> = Vec::new();
            for col in 0..SIZE
                invariant
                    self.grid.wf(),
                    row < SIZE,
                    line.len() == col,
                    forall|c: int|
                        0 <= c < col ==> (#[trigger] line@[c]) == (Cell {
                            state: rule(
                                self.grid.state(row as int, c),
                                self.grid.neighbours(row as int, c),
                            ),
                            position: (row, c as usize),
                        }),
            {
                let cell = self.grid.cells[row][col];
                let state = cell.calculate_new_state(&self.grid);
                line.push(Cell { state, position: (row, col) });
            }
            cells.push(line);
        }
        GameOfLife { grid: Grid { cells }, generation: 1 }
    }
}

} // verus!
