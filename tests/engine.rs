use gol::gol::{default_rule, ClassicRule, GameOfLife};

fn board(width: u32, height: u32, live: &[(u32, u32)]) -> GameOfLife {
    let mut states = vec![false; (width * height) as usize];
    for &(x, y) in live {
        states[(y * width + x) as usize] = true;
    }
    GameOfLife::from_states(width, height, states)
}

fn live_cells(game: &GameOfLife) -> Vec<(u32, u32)> {
    let mut out = Vec::new();
    for y in 0..game.height() {
        for x in 0..game.width() {
            if game.get_cell(x, y) {
                out.push((x, y));
            }
        }
    }
    out
}

#[test]
fn isolated_cell_dies() {
    let mut game = board(3, 3, &[(1, 1)]);
    assert_eq!(game.get_neighbours(1, 1), 0);
    game.iterate();
    assert!(!game.get_cell(1, 1));
    assert!(live_cells(&game).is_empty());
}

#[test]
fn block_is_stable() {
    let block = [(2, 2), (3, 2), (2, 3), (3, 3)];
    let mut game = board(6, 6, &block);
    game.iterate();
    assert_eq!(live_cells(&game), block.to_vec());
    game.iterate();
    assert_eq!(live_cells(&game), block.to_vec());
}

#[test]
fn blinker_oscillates() {
    let vertical = vec![(1, 0), (1, 1), (1, 2)];
    let horizontal = vec![(0, 1), (1, 1), (2, 1)];
    let mut game = board(3, 3, &vertical);
    game.iterate();
    assert_eq!(live_cells(&game), horizontal);
    game.iterate();
    assert_eq!(live_cells(&game), vertical);
}

#[test]
fn blinker_with_clearance_oscillates() {
    let horizontal = vec![(1, 2), (2, 2), (3, 2)];
    let vertical = vec![(2, 1), (2, 2), (2, 3)];
    let mut game = board(5, 5, &horizontal);
    game.iterate();
    assert_eq!(live_cells(&game), vertical);
    game.iterate();
    assert_eq!(live_cells(&game), horizontal);
}

#[test]
fn corner_counts_only_in_bounds_neighbours() {
    let game = board(2, 2, &[(0, 0), (1, 0), (0, 1), (1, 1)]);
    assert_eq!(game.get_neighbours(0, 0), 3);
    let game = board(4, 4, &[(3, 3), (3, 0), (0, 3), (3, 1), (1, 3)]);
    assert_eq!(game.get_neighbours(0, 0), 0);
    let game = board(4, 4, &[(1, 0), (1, 1)]);
    assert_eq!(game.get_neighbours(0, 0), 2);
}

#[test]
fn edge_and_middle_counts() {
    let all: Vec<(u32, u32)> = (0..3).flat_map(|y| (0..3).map(move |x| (x, y))).collect();
    let game = board(3, 3, &all);
    assert_eq!(game.get_neighbours(1, 1), 8);
    assert_eq!(game.get_neighbours(1, 0), 5);
    assert_eq!(game.get_neighbours(2, 2), 3);
}

#[test]
fn presets_ignore_out_of_range() {
    let mut game = board(5, 5, &[]);
    game.apply_presets(&vec![(10, 10), (2, 2)]);
    assert_eq!(live_cells(&game), vec![(2, 2)]);
}

#[test]
fn new_with_presets_sets_listed_cells() {
    let game = GameOfLife::new_with_presets(5, 5, vec![(10, 10), (2, 2), (5, 0), (0, 5)]);
    assert_eq!(game.width(), 5);
    assert_eq!(game.height(), 5);
    assert!(game.get_cell(2, 2));
}

#[test]
fn presets_keep_live_cells() {
    let mut game = board(3, 2, &[(0, 0)]);
    game.apply_presets(&vec![(2, 1), (2, 1)]);
    assert_eq!(live_cells(&game), vec![(0, 0), (2, 1)]);
}

#[test]
fn get_cell_is_repeatable() {
    let game = GameOfLife::new(7, 4);
    for y in 0..4 {
        for x in 0..7 {
            assert_eq!(game.get_cell(x, y), game.get_cell(x, y));
        }
    }
}

#[test]
fn advance_is_deterministic() {
    let live = [(0, 0), (1, 0), (2, 1), (3, 3), (1, 2), (2, 2)];
    let mut a = board(4, 4, &live);
    let mut b = board(4, 4, &live);
    a.iterate();
    b.iterate();
    assert_eq!(live_cells(&a), live_cells(&b));
    assert_eq!(live_cells(&a), vec![(1, 0), (0, 1), (2, 1), (1, 2), (2, 2), (3, 2), (2, 3)]);
}

#[test]
fn random_board_has_requested_size() {
    let mut game = GameOfLife::new(6, 3);
    assert_eq!(game.width(), 6);
    assert_eq!(game.height(), 3);
    game.iterate();
    assert_eq!(game.width(), 6);
    assert_eq!(game.height(), 3);
}

#[test]
fn empty_board_is_stable() {
    let mut game = GameOfLife::new(0, 5);
    game.iterate();
    assert_eq!(game.width(), 0);
    assert_eq!(game.height(), 5);
    let mut game = GameOfLife::new_with_presets(4, 0, vec![(0, 0)]);
    game.iterate();
    assert!(live_cells(&game).is_empty());
}

#[test]
fn set_cell_changes_one_cell() {
    let mut game = board(3, 3, &[(0, 0)]);
    game.set_cell(2, 1, true);
    game.set_cell(0, 0, false);
    assert_eq!(live_cells(&game), vec![(2, 1)]);
}

#[test]
fn default_rule_cases() {
    // live cell with two neighbours survives
    let game = board(3, 3, &[(0, 0), (1, 1), (2, 2)]);
    assert!(default_rule(&game, 1, 1));
    // dead cell with three neighbours is born
    let game = board(3, 3, &[(0, 0), (2, 0), (2, 2)]);
    assert!(default_rule(&game, 1, 1));
    // dead cell with two neighbours stays dead
    let game = board(3, 3, &[(0, 0), (2, 2)]);
    assert!(!default_rule(&game, 1, 1));
    // live cell with four neighbours dies
    let game = board(3, 3, &[(0, 0), (2, 0), (0, 2), (2, 2), (1, 1)]);
    assert!(!default_rule(&game, 1, 1));
    // live cell with one neighbour dies
    let game = board(3, 3, &[(0, 0), (1, 1)]);
    assert!(!default_rule(&game, 1, 1));
}

#[test]
fn iterate_with_classic_rule_matches_iterate() {
    let live = [(1, 0), (2, 1), (0, 2), (1, 2), (2, 2)];
    let mut a = board(5, 5, &live);
    let mut b = board(5, 5, &live);
    a.iterate();
    b.iterate_with(&ClassicRule);
    assert_eq!(live_cells(&a), live_cells(&b));
    assert_eq!(live_cells(&a), vec![(0, 1), (2, 1), (1, 2), (2, 2), (1, 3)]);
}
