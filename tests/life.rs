use playground::life::{Cell, GameOfLife, Grid, State, SIZE};

fn seeds_with_live(live: &[(usize, usize)]) -> Vec<u128> {
    let mut seeds = vec![1u128; SIZE * SIZE];
    for &(r, c) in live {
        seeds[r * SIZE + c] = 0;
    }
    seeds
}

#[test]
fn even_seeds_live() {
    assert_eq!(Cell::new((3, 4), 10).state, State::Live);
    assert_eq!(Cell::new((3, 4), 7).state, State::Dead);
    assert_eq!(Cell::new((3, 4), 7).position, (3, 4));
    assert_eq!(State::default(), State::Dead);
    assert_eq!(State::Live.as_usize(), 1);
    assert_eq!(State::Dead.as_usize(), 0);
    assert_eq!(State::Live.glyph(), '*');
    assert_eq!(State::Dead.glyph(), ' ');
}

#[test]
fn neighbours_wrap_around_edges() {
    let grid = Grid::new(&seeds_with_live(&[(SIZE - 1, SIZE - 1), (0, 1), (1, 0), (5, 5)]));
    let corner = Cell::new((0, 0), 1);
    assert_eq!(corner.live_neighbours(&grid), 3);
    let far = Cell::new((20, 20), 1);
    assert_eq!(far.live_neighbours(&grid), 0);
}

#[test]
fn rule_of_birth_and_survival() {
    let grid = Grid::new(&seeds_with_live(&[(1, 0), (1, 1), (1, 2)]));
    // The middle of a row of three survives, its ends die.
    assert_eq!(Cell { state: State::Live, position: (1, 1) }.calculate_new_state(&grid), State::Live);
    assert_eq!(Cell { state: State::Live, position: (1, 0) }.calculate_new_state(&grid), State::Dead);
    // Cells above and below the middle are born.
    assert_eq!(Cell { state: State::Dead, position: (0, 1) }.calculate_new_state(&grid), State::Live);
    assert_eq!(Cell { state: State::Dead, position: (2, 1) }.calculate_new_state(&grid), State::Live);
}

#[test]
fn blinker_oscillates() {
    let mut game = GameOfLife::new(&seeds_with_live(&[(1, 0), (1, 1), (1, 2)]));
    let next = game.compute_new_generation();
    for r in 0..SIZE {
        for c in 0..SIZE {
            let expected = if c == 1 && r <= 2 { State::Live } else { State::Dead };
            assert_eq!(next.grid.state_at(r, c), expected);
        }
    }
    assert_eq!(next.generation, 1);
    assert_eq!(game.grid.state_at(1, 0), State::Live);
}

#[test]
fn cells_toggle() {
    let mut cell = Cell::new((0, 0), 0);
    assert!(cell.is_alive());
    cell.change_state();
    assert!(!cell.is_alive());
    cell.change_state();
    assert!(cell.is_alive());
    assert_eq!(Cell::default().state, State::Dead);
}
