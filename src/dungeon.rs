//! A walker on a dungeon map: map cells, moves, and what the screen shows.
use vstd::prelude::*;

use crate::board::{Board, Point, Vec2};

verus! {

/// What a map cell holds.
#[derive(Clone, Copy, Debug, PartialEq, Eq, Structural)]
pub enum Cell {
    Empty,
    Floor,
    VertWall,
    HorzWall,
    Passage,
    Door,
}

/// A compass direction on the screen: north is up.
#[derive(Clone, Copy, Debug, PartialEq, Eq, Structural)]
pub enum Direction {
    N,
    S,
    E,
    W,
}

impl Direction {
    /// The displacement of one step, as (rows, columns).
    pub open spec fn delta(self) -> (int, int) {
        match self {
            Direction::N => (-1, 0),
            Direction::S => (1, 0),
            Direction::E => (0, 1),
            Direction::W => (0, -1),
        }
    }

    /// The displacement of one step.
    pub fn to_vec2(self) -> (r: Vec2)
        ensures
            (r.0 as int, r.1 as int) == self.delta(),
    {
        match self {
            Direction::N => Vec2(-1, 0),
            Direction::S => Vec2(1, 0),
            Direction::E => Vec2(0, 1),
            Direction::W => Vec2(0, -1),
        }
    }

    /// The direction bound to a key: `k` up, `j` down, `l` right, `h` left.
    pub fn from_key(key: char) -> (r: Option<Direction>)
        ensures
            r == (if key == 'k' {
                Some(Direction::N)
            } else if key == 'j' {
                Some(Direction::S)
            } else if key == 'l' {
                Some(Direction::E)
            } else if key == 'h' {
                Some(Direction::W)
            } else {
                None
            }),
    {
        match key {
            'k' => Some(Direction::N),
            'j' => Some(Direction::S),
            'l' => Some(Direction::E),
            'h' => Some(Direction::W),
            _ => None,
        }
    }
}

impl Cell {
    /// Cells one may step on: floor, passages and doors.
    pub open spec fn walkable(self) -> bool {
        self is Floor || self is Passage || self is Door
    }

    /// The character a cell is drawn with.
    pub open spec fn glyph(self) -> char {
        match self {
            Cell::Empty => ' ',
            Cell::Floor => '.',
            Cell::VertWall => '|',
            Cell::HorzWall => '-',
            Cell::Passage => '#',
            Cell::Door => '+',
        }
    }

    pub fn is_walkable(&self) -> (r: bool)
        ensures
            r == self.walkable(),
    {
        match self {
            Cell::Empty => false,
            Cell::Floor => true,
            Cell::VertWall => false,
            Cell::HorzWall => false,
            Cell::Passage => true,
            Cell::Door => true,
        }
    }

    pub fn to_char(self) -> (r: char)
        ensures
            r == self.glyph(),
    {
        match self {
            Cell::Empty => ' ',
            Cell::Floor => '.',
            Cell::VertWall => '|',
            Cell::HorzWall => '-',
            Cell::Passage => '#',
            Cell::Door => '+',
        }
    }
}

impl Default for Cell {
    /// The void outside the map.
    fn default() -> (r: Cell)
        ensures
            r == Cell::Empty,
    {
        Cell::Empty
    }
}

/// A game: the map, where the player stands, and whether they asked to
/// stop.
pub struct Rogalik {
    board: Board<Cell>,
    player_pos: Point,
    quit: bool,
}

impl Rogalik {
    pub closed spec fn map(&self) -> Board<Cell> {
        self.board
    }

    pub closed spec fn position(&self) -> Point {
        self.player_pos
    }

    pub closed spec fn quitting(&self) -> bool {
        self.quit
    }

    /// The map is a well-formed board.
    pub closed spec fn wf(&self) -> bool {
        self.board.wf()
    }

    /// A `rows` by `cols` map of floor, with the player in the top-left
    /// corner.
    pub fn new(rows: usize, cols: usize) -> (r: Rogalik)
        requires
            rows * cols <= usize::MAX,
        ensures
            r.wf(),
            r.map().nrows() == rows,
            r.map().ncols() == cols,
            forall|i: int, j: int| #[trigger] r.map().in_bounds(i, j) ==> r.map().cell(i, j) == Cell::Floor,
            r.position() == Point(0, 0),
            !r.quitting(),
    {
        Rogalik { board: Board::new(rows, cols, Cell::Floor), player_pos: Point(0, 0), quit: false }
    }

    /// The square that a step in `dir` leads to, where it exists.
    pub open spec fn target(&self, dir: Direction) -> Option<(int, int)> {
        let r = self.position().0 + dir.delta().0;
        let c = self.position().1 + dir.delta().1;
        if 0 <= r <= usize::MAX && 0 <= c <= usize::MAX {
            Some((r, c))
        } else {
            None
        }
    }

    /// Steps in `dir` when the square there is on the map and walkable;
    /// otherwise stays put.
    pub fn move_to(&mut self, dir: Direction)
        requires
            old(self).wf(),
        ensures
            final(self).wf(),
            final(self).map() == old(self).map(),
            final(self).quitting() == old(self).quitting(),
            final(self).position() == (match old(self).target(dir) {
                Some((r, c)) => if old(self).map().in_bounds(r, c) && old(self).map().cell(
                    r,
                    c,
                ).walkable() {
                    Point(r as usize, c as usize)
                } else {
                    old(self).position()
                },
                None => old(self).position(),
            }),
    {
        if let Some(next_pos) = self.player_pos.checked_add(dir.to_vec2()) {
            if let Some(cell) = self.board.get(next_pos) {
                if cell.is_walkable() {
                    self.player_pos = next_pos;
                }
            }
        }
    }

    /// Asks the game to stop.
    pub fn quit(&mut self)
        ensures
            final(self).quitting(),
            final(self).map() == old(self).map(),
            final(self).position() == old(self).position(),
            final(self).wf() == old(self).wf(),
    {
        self.quit = true;
    }

    /// Whether the game was asked to stop.
    pub fn is_quit(&self) -> (r: bool)
        ensures
            r == self.quitting(),
    {
        self.quit
    }

    /// What the screen shows at (`i`, `j`): the player, else the map cell,
    /// else blank.
    pub open spec fn shown(&self, i: int, j: int) -> char {
        if i == self.position().0 && j == self.position().1 {
            '@'
        } else if self.map().in_bounds(i, j) {
            self.map().cell(i, j).glyph()
        } else {
            ' '
        }
    }

    /// Draws the game on `display`: blank everywhere, then the map where it
    /// fits, then the player where they fit.
    pub fn render(&self, display: &mut Board<char>)
        requires
            self.wf(),
            old(display).wf(),
            old(display).nrows() >= 1,
            old(display).ncols() >= 1,
        ensures
            final(display).wf(),
            final(display).nrows() == old(display).nrows(),
            final(display).ncols() == old(display).ncols(),
            forall|i: int, j: int| #[trigger]
                final(display).in_bounds(i, j) ==> final(display).cell(i, j) == self.shown(i, j),
    {
        let whole = display.rectangle();
        display.fill_rectangle(whole, ' ');
        let ghost start = *display;
        let rows = self.board.rows_range().end;
        let cols = self.board.cols_range().end;
        let mut row: usize = 0;
        while row < rows
            invariant
                self.wf(),
                display.wf(),
                rows == self.map().nrows(),
                cols == self.map().ncols(),
                row <= rows,
                display.nrows() == start.nrows(),
                display.ncols() == start.ncols(),
                forall|i: int, j: int| #[trigger]
                    display.in_bounds(i, j) ==> display.cell(i, j) == if i < row && self.map().in_bounds(i, j) {
                        self.map().cell(i, j).glyph()
                    } else {
                        ' '
                    },
            decreases rows - row,
        {
            let mut col: usize = 0;
            while col < cols
                invariant
                    self.wf(),
                    display.wf(),
                    rows == self.map().nrows(),
                    cols == self.map().ncols(),
                    row < rows,
                    col <= cols,
                    display.nrows() == start.nrows(),
                    display.ncols() == start.ncols(),
                    forall|i: int, j: int| #[trigger]
                        display.in_bounds(i, j) ==> display.cell(i, j) == if (i < row || (i == row && j < col))
                            && self.map().in_bounds(i, j) {
                            self.map().cell(i, j).glyph()
                        } else {
                            ' '
                        },
                decreases cols - col,
            {
                let point = Point(row, col);
                if display.contains(point) {
                    let ghost before = *display;
                    let c = self.board.index(point).to_char();
                    display.set(point, c);
                    assert forall|i: int, j: int| #[trigger] display.in_bounds(i, j) implies display.cell(i, j)
                        == if (i < row || (i == row && j <= col)) && self.map().in_bounds(i, j) {
                        self.map().cell(i, j).glyph()
                    } else {
                        ' '
                    } by {
                        assert(before.in_bounds(i, j));
                    }
                }
                col += 1;
            }
            row += 1;
        }
        if display.contains(self.player_pos) {
            let ghost before = *display;
            display.set(self.player_pos, '@');
            assert forall|i: int, j: int| #[trigger] display.in_bounds(i, j) implies display.cell(i, j)
                == self.shown(i, j) by {
                assert(before.in_bounds(i, j));
            }
        }
    }
}

} // verus!
