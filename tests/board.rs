use playground::board::{Board, Point, Rectangle, Vec2};
use playground::dungeon::{Cell, Direction, Rogalik};

#[test]
fn rectangle_orders_its_corners() {
    let r = Rectangle::new(Point(5, 1), Point(2, 7));
    assert_eq!(*r.corner1(), Point(2, 1));
    assert_eq!(*r.corner2(), Point(5, 7));
}

#[test]
fn board_dimensions_and_contents() {
    let b = Board::new(3, 4, 'x');
    assert_eq!(b.rows_range(), 0..3);
    assert_eq!(b.cols_range(), 0..4);
    assert!(b.contains(Point(2, 3)));
    assert!(!b.contains(Point(3, 0)));
    assert!(!b.contains(Point(0, 4)));
    assert_eq!(b.get(Point(1, 1)), Some(&'x'));
    assert_eq!(b.get(Point(1, 9)), None);
    let whole = b.rectangle();
    assert_eq!(*whole.corner1(), Point(0, 0));
    assert_eq!(*whole.corner2(), Point(2, 3));
}

#[test]
fn fill_rectangle_writes_inside_only() {
    let mut b = Board::new(4, 4, '.');
    b.fill_rectangle(Rectangle::new(Point(1, 1), Point(2, 3)), '#');
    for row in 0..4 {
        for col in 0..4 {
            let inside = (1..=2).contains(&row) && (1..=3).contains(&col);
            let expected = if inside { '#' } else { '.' };
            assert_eq!(*b.index(Point(row, col)), expected);
        }
    }
}

#[test]
fn set_changes_one_cell() {
    let mut b = Board::new(2, 2, 0u8);
    b.set(Point(1, 0), 9);
    assert_eq!(*b.index(Point(1, 0)), 9);
    assert_eq!(*b.index(Point(0, 0)), 0);
    assert_eq!(*b.index(Point(1, 1)), 0);
}

#[test]
fn points_move_by_vectors() {
    assert_eq!(Point(3, 4).checked_add(Vec2(-1, 2)), Some(Point(2, 6)));
    assert_eq!(Point(0, 4).checked_add(Vec2(-1, 0)), None);
    assert_eq!(Point(usize::MAX, 0).checked_add(Vec2(1, 0)), None);
}

#[test]
fn keys_and_directions() {
    assert_eq!(Direction::from_key('k'), Some(Direction::N));
    assert_eq!(Direction::from_key('j'), Some(Direction::S));
    assert_eq!(Direction::from_key('l'), Some(Direction::E));
    assert_eq!(Direction::from_key('h'), Some(Direction::W));
    assert_eq!(Direction::from_key('x'), None);
    assert_eq!(Direction::N.to_vec2(), Vec2(-1, 0));
    assert_eq!(Direction::W.to_vec2(), Vec2(0, -1));
}

#[test]
fn cells_draw_and_walk() {
    assert_eq!(Cell::default(), Cell::Empty);
    assert!(!Cell::Empty.is_walkable());
    assert!(Cell::Floor.is_walkable());
    assert!(!Cell::VertWall.is_walkable());
    assert!(!Cell::HorzWall.is_walkable());
    assert!(Cell::Passage.is_walkable());
    assert!(Cell::Door.is_walkable());
    assert_eq!(Cell::Floor.to_char(), '.');
    assert_eq!(Cell::VertWall.to_char(), '|');
    assert_eq!(Cell::HorzWall.to_char(), '-');
    assert_eq!(Cell::Passage.to_char(), '#');
    assert_eq!(Cell::Door.to_char(), '+');
    assert_eq!(Cell::Empty.to_char(), ' ');
}

fn screen(display: &Board<char>) -> Vec<String> {
    let mut lines = Vec::new();
    for row in display.rows_range() {
        let mut line = String::new();
        for col in display.cols_range() {
            line.push(*display.index(Point(row, col)));
        }
        lines.push(line);
    }
    lines
}

#[test]
fn render_draws_map_and_player() {
    let game = Rogalik::new(2, 3);
    let mut display = Board::new(3, 4, 'z');
    game.render(&mut display);
    assert_eq!(screen(&display), vec!["@.. ", "... ", "    "]);
}

#[test]
fn player_walks_on_floor_and_stays_on_the_map() {
    let mut game = Rogalik::new(3, 3);
    game.move_to(Direction::N);
    game.move_to(Direction::W);
    let mut display = Board::new(3, 3, ' ');
    game.render(&mut display);
    assert_eq!(screen(&display)[0], "@..");
    game.move_to(Direction::S);
    game.move_to(Direction::E);
    game.move_to(Direction::E);
    game.move_to(Direction::E);
    game.render(&mut display);
    assert_eq!(screen(&display), vec!["...", "..@", "..."]);
    assert!(!game.is_quit());
    game.quit();
    assert!(game.is_quit());
}
