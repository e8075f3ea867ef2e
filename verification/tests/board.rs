use minesweeper::board::{Board, CellState};

fn board_with(width: usize, height: usize, mines: usize) -> Board {
    Board::new(width, height, mines)
}

#[test]
fn in_bounds_works() {
    let b = board_with(3, 2, 1);
    assert!(b.in_bounds(0, 0));
    assert!(b.in_bounds(2, 1));
    assert!(!b.in_bounds(-1, 0));
    assert!(!b.in_bounds(3, 0));
    assert!(!b.in_bounds(0, 2));
}

#[test]
fn neighbors_center_has_8() {
    let b = board_with(3, 3, 1);
    let ns: Vec<_> = b.neighbors(1, 1).into_iter().collect();
    assert_eq!(ns.len(), 8);
}

#[test]
fn neighbors_corner_has_3() {
    let b = board_with(3, 3, 1);
    let ns: Vec<_> = b.neighbors(0, 0).into_iter().collect();
    assert_eq!(ns.len(), 3);
}

#[test]
fn first_click_safety() {
    let mut b = board_with(5, 5, 5);
    assert!(!b.mines_placed());
    let safe = b.reveal_cell(2, 2);
    assert!(safe);
    assert!(b.mines_placed());
    // The first clicked cell cannot be a mine
    assert!(!b.is_mine(2, 2));
    // The revealed cell should be Revealed
    match b.cell_at(2, 2) {
        CellState::Revealed(_) => {}
        _ => panic!("first click should reveal a number"),
    }
}

#[test]
fn flood_fill_reveals_zero_region() {
    // Construct a board with no mines to force flood fill of entire board
    let mut b = board_with(4, 3, 0);
    let safe = b.reveal_cell(0, 0);
    assert!(safe);
    for y in 0..b.height() {
        for x in 0..b.width() {
            assert!(matches!(b.cell_at(x, y), CellState::Revealed(0)));
        }
    }
    assert!(b.is_win());
}

#[test]
fn toggle_flag_cycles_hidden_and_flagged() {
    let mut b = board_with(2, 2, 1);
    assert!(matches!(b.cell_at(0, 0), CellState::Hidden));
    b.toggle_flag(0, 0);
    assert!(matches!(b.cell_at(0, 0), CellState::Flagged));
    b.toggle_flag(0, 0);
    assert!(matches!(b.cell_at(0, 0), CellState::Hidden));
}

#[test]
fn chord_opens_neighbors_when_flags_match() {
    // Create a deterministic setup: place 1 mine and ensure counts
    let mut b = board_with(3, 3, 1);
    // Place the mine by hand to control the layout: bottom-right is a mine
    assert!(b.place_mines_from(&vec![(2, 2)]));
    // Reveal center (1,1) which should have 1 adjacent mine
    let safe = b.reveal_cell(1, 1);
    assert!(safe);
    assert!(matches!(b.cell_at(1, 1), CellState::Revealed(1)));
    // Flag the mine
    b.toggle_flag(2, 2);
    // Now chord center; should open remaining neighbors safely
    let chord_safe = b.chord(1, 1);
    assert!(chord_safe);
    for (nx, ny) in b.neighbors(1, 1) {
        if (nx, ny) != (2, 2) {
            assert!(matches!(b.cell_at(nx, ny), CellState::Revealed(_)));
        }
    }
}

#[test]
fn chord_incorrect_flags_can_hit_mine() {
    let mut b = board_with(2, 2, 1);
    // Place a mine at (0,0)
    assert!(b.place_mines_from(&vec![(0, 0)]));
    // Reveal (1,1) which should have 1 adjacent mine
    assert!(b.reveal_cell(1, 1));
    assert!(matches!(b.cell_at(1, 1), CellState::Revealed(1)));
    // Incorrectly flag (1,0) instead of (0,0)
    b.toggle_flag(1, 0);
    // Chord should now attempt to open (0,0) and hit a mine
    let safe = b.chord(1, 1);
    assert!(!safe);
}

// New edge-case tests
#[test]
fn chord_noop_when_flag_count_does_not_match() {
    let mut b = board_with(3, 3, 1);
    // Place a mine at (2,2), reveal center shows 1
    assert!(b.place_mines_from(&vec![(2, 2)]));
    assert!(b.reveal_cell(1, 1));
    assert!(matches!(b.cell_at(1, 1), CellState::Revealed(1)));
    // Do NOT place any flags, chording should be a no-op
    let before_hidden: usize = b
        .neighbors(1, 1)
        .into_iter()
        .filter(|&(nx, ny)| matches!(b.cell_at(nx, ny), CellState::Hidden))
        .count();
    let safe = b.chord(1, 1);
    assert!(safe);
    let after_hidden: usize = b
        .neighbors(1, 1)
        .into_iter()
        .filter(|&(nx, ny)| matches!(b.cell_at(nx, ny), CellState::Hidden))
        .count();
    assert_eq!(before_hidden, after_hidden, "chord should not reveal when flags don't match");
}

#[test]
fn win_detection_after_revealing_all_non_mines() {
    let mut b = board_with(2, 2, 1);
    // Deterministic mine at (0,0)
    assert!(b.place_mines_from(&vec![(0, 0)]));
    // Reveal all safe cells
    assert!(b.reveal_cell(1, 0));
    assert!(b.reveal_cell(0, 1));
    assert!(b.reveal_cell(1, 1));
    assert!(b.is_win());
}

#[test]
fn flood_fill_handles_board_edges_without_overflow() {
    // Place a single mine far from corner to create zeros near (0,0)
    let mut b = board_with(3, 3, 1);
    assert!(b.place_mines_from(&vec![(2, 2)]));
    // Revealing (0,0) should not panic and should reveal a region up to numbers at the boundary
    assert!(b.reveal_cell(0, 0));
    // Ensure all non-mine cells except those adjacent to the mine are revealed
    for y in 0..3 {
        for x in 0..3 {
            if (x, y) == (2, 2) {
                continue;
            }
            assert!(matches!(b.cell_at(x, y), CellState::Revealed(_)));
        }
    }
    assert!(!matches!(b.cell_at(2, 2), CellState::Revealed(_)));
}

#[test]
fn new_board_is_hidden_and_unmined() {
    let b = board_with(4, 3, 5);
    assert_eq!(b.width(), 4);
    assert_eq!(b.height(), 3);
    assert_eq!(b.mines(), 5);
    assert!(!b.mines_placed());
    assert_eq!(b.flags_count(), 0);
    assert!(!b.is_win());
    for y in 0..3 {
        for x in 0..4 {
            assert_eq!(b.cell_at(x, y), CellState::Hidden);
            assert!(!b.is_mine(x, y));
            assert_eq!(b.adjacent_mine_count(x, y), 0);
        }
    }
}

#[test]
fn neighbors_come_row_by_row() {
    let b = board_with(3, 3, 1);
    assert_eq!(
        b.neighbors(1, 1),
        vec![(0, 0), (1, 0), (2, 0), (0, 1), (2, 1), (0, 2), (1, 2), (2, 2)]
    );
    assert_eq!(b.neighbors(0, 0), vec![(1, 0), (0, 1), (1, 1)]);
    assert_eq!(b.neighbors(2, 2), vec![(1, 1), (2, 1), (1, 2)]);
    assert_eq!(b.neighbors(1, 0), vec![(0, 0), (2, 0), (0, 1), (1, 1), (2, 1)]);
}

#[test]
fn neighbors_of_a_cell_off_the_grid() {
    let b = board_with(3, 2, 1);
    // Just right of the grid: the cells of the last column next to it
    assert_eq!(b.neighbors(3, 0), vec![(2, 0), (2, 1)]);
    // Far away: nothing
    assert_eq!(b.neighbors(10, 10), vec![]);
    assert_eq!(b.neighbors(usize::MAX, usize::MAX), vec![]);
    assert_eq!(b.neighbors(usize::MAX, 0), vec![]);
    // A board of one cell has no neighbors at all
    let one = board_with(1, 1, 0);
    assert_eq!(one.neighbors(0, 0), vec![]);
}

#[test]
fn adjacent_mine_count_counts_each_neighbor() {
    let mut b = board_with(3, 3, 3);
    assert!(b.place_mines_from(&vec![(0, 0), (2, 0), (1, 2)]));
    assert_eq!(b.adjacent_mine_count(1, 1), 3);
    assert_eq!(b.adjacent_mine_count(1, 0), 2);
    assert_eq!(b.adjacent_mine_count(0, 0), 0);
    assert_eq!(b.adjacent_mine_count(0, 1), 2);
    assert_eq!(b.adjacent_mine_count(2, 2), 1);
    assert_eq!(b.adjacent_mine_count(0, 2), 1);
    // Off the grid the count is over the grid cells next to the coordinate
    assert_eq!(b.adjacent_mine_count(3, 0), 1);
    assert_eq!(b.adjacent_mine_count(9, 9), 0);
}

#[test]
fn adjacent_mine_count_reaches_eight() {
    let mut b = board_with(3, 3, 8);
    assert!(b.reveal_cell(1, 1));
    assert_eq!(b.cell_at(1, 1), CellState::Revealed(8));
    assert_eq!(b.adjacent_mine_count(1, 1), 8);
    assert!(b.is_win());
}

#[test]
fn place_mines_from_takes_the_first_cells() {
    let mut b = board_with(3, 2, 2);
    assert!(b.place_mines_from(&vec![(2, 1), (0, 0), (1, 1), (1, 0)]));
    assert!(b.mines_placed());
    let mut mined = Vec::new();
    for y in 0..2 {
        for x in 0..3 {
            if b.is_mine(x, y) {
                mined.push((x, y));
            }
        }
    }
    assert_eq!(mined, vec![(0, 0), (2, 1)]);
}

#[test]
fn place_mines_from_refuses_a_bad_order() {
    // too short
    let mut b = board_with(3, 2, 2);
    assert!(!b.place_mines_from(&vec![(0, 0)]));
    assert!(!b.mines_placed());
    // a cell twice
    assert!(!b.place_mines_from(&vec![(1, 1), (1, 1), (0, 0)]));
    assert!(!b.mines_placed());
    // a cell off the grid
    assert!(!b.place_mines_from(&vec![(3, 0), (0, 0)]));
    assert!(!b.place_mines_from(&vec![(0, 0), (0, 2)]));
    assert!(!b.mines_placed());
    for y in 0..2 {
        for x in 0..3 {
            assert!(!b.is_mine(x, y));
        }
    }
    // what comes after the first cells is not looked at
    assert!(b.place_mines_from(&vec![(0, 0), (1, 0), (1, 0), (7, 7)]));
    assert!(b.mines_placed());
    // placed once, never again
    assert!(!b.place_mines_from(&vec![(2, 1), (2, 0)]));
    assert!(b.is_mine(0, 0) && b.is_mine(1, 0));
    assert!(!b.is_mine(2, 1) && !b.is_mine(2, 0));
}

#[test]
fn place_mines_from_with_no_mines() {
    let mut b = board_with(2, 2, 0);
    assert!(b.place_mines_from(&vec![]));
    assert!(b.mines_placed());
    assert!(b.reveal_cell(1, 1));
    assert!(b.is_win());
}

fn count_mines(b: &Board) -> usize {
    let mut n = 0;
    for y in 0..b.height() {
        for x in 0..b.width() {
            if b.is_mine(x, y) {
                n += 1;
            }
        }
    }
    n
}

#[test]
fn place_mines_excluding_places_exactly_the_mines() {
    for round in 0..50 {
        let mut b = board_with(6, 5, 12);
        let exclude = (round % 6, round % 5);
        b.place_mines_excluding(exclude);
        assert!(b.mines_placed());
        assert_eq!(count_mines(&b), 12);
        assert!(!b.is_mine(exclude.0, exclude.1));
    }
}

#[test]
fn place_mines_excluding_is_idempotent() {
    let mut b = board_with(4, 4, 6);
    b.place_mines_excluding((1, 1));
    let before: Vec<bool> = (0..16).map(|i| b.is_mine(i % 4, i / 4)).collect();
    b.place_mines_excluding((2, 2));
    b.place_mines_excluding((1, 1));
    let after: Vec<bool> = (0..16).map(|i| b.is_mine(i % 4, i / 4)).collect();
    assert_eq!(before, after);
    assert_eq!(count_mines(&b), 6);
}

#[test]
fn place_mines_excluding_fills_all_but_one() {
    // With one cell fewer mines than cells the layout is forced
    let mut b = board_with(3, 3, 8);
    b.place_mines_excluding((2, 0));
    for y in 0..3 {
        for x in 0..3 {
            assert_eq!(b.is_mine(x, y), (x, y) != (2, 0));
        }
    }
}

#[test]
fn place_mines_excluding_mixes_the_cells() {
    // Among many draws of one mine on a board of 30 cells, more than one
    // cell is hit: the candidates are not handed on as they were built.
    let mut seen = Vec::new();
    for _ in 0..200 {
        let mut b = board_with(6, 5, 1);
        b.place_mines_excluding((0, 0));
        for y in 0..5 {
            for x in 0..6 {
                if b.is_mine(x, y) && !seen.contains(&(x, y)) {
                    seen.push((x, y));
                }
            }
        }
    }
    assert!(seen.len() > 1);
    assert!(!seen.contains(&(0, 0)));
}

#[test]
fn first_reveal_is_safe_on_every_cell() {
    for y in 0..4 {
        for x in 0..4 {
            for _ in 0..10 {
                let mut b = board_with(4, 4, 15);
                assert!(b.reveal_cell(x, y));
                assert!(!b.is_mine(x, y));
                assert_eq!(count_mines(&b), 15);
                assert_eq!(b.cell_at(x, y), CellState::Revealed(b.adjacent_mine_count(x, y)));
                assert!(b.is_win());
            }
        }
    }
}

#[test]
fn first_reveal_on_a_flag_places_mines_and_spares_it() {
    let mut b = board_with(3, 3, 8);
    b.toggle_flag(1, 1);
    assert!(b.reveal_cell(1, 1));
    assert!(b.mines_placed());
    assert!(!b.is_mine(1, 1));
    assert_eq!(b.cell_at(1, 1), CellState::Flagged);
}

#[test]
fn reveal_out_of_bounds_is_a_safe_noop() {
    let mut b = board_with(3, 3, 2);
    assert!(b.reveal_cell(3, 0));
    assert!(b.reveal_cell(0, 3));
    assert!(b.reveal_cell(usize::MAX, usize::MAX));
    assert!(!b.mines_placed());
    for y in 0..3 {
        for x in 0..3 {
            assert_eq!(b.cell_at(x, y), CellState::Hidden);
        }
    }
}

#[test]
fn reveal_of_a_mine_is_unsafe_and_changes_nothing() {
    let mut b = board_with(3, 3, 1);
    assert!(b.place_mines_from(&vec![(1, 1)]));
    assert!(!b.reveal_cell(1, 1));
    for y in 0..3 {
        for x in 0..3 {
            assert_eq!(b.cell_at(x, y), CellState::Hidden);
        }
    }
    assert!(!b.is_win());
}

#[test]
fn reveal_of_flagged_and_revealed_cells_is_a_noop() {
    let mut b = board_with(3, 3, 1);
    assert!(b.place_mines_from(&vec![(1, 1)]));
    b.toggle_flag(1, 1);
    // a flagged mine is immune
    assert!(b.reveal_cell(1, 1));
    assert_eq!(b.cell_at(1, 1), CellState::Flagged);
    b.toggle_flag(0, 0);
    assert!(b.reveal_cell(0, 0));
    assert_eq!(b.cell_at(0, 0), CellState::Flagged);
    assert!(b.reveal_cell(2, 2));
    assert_eq!(b.cell_at(2, 2), CellState::Revealed(1));
    assert!(b.reveal_cell(2, 2));
    assert_eq!(b.cell_at(2, 2), CellState::Revealed(1));
}

#[test]
fn reveal_of_a_numbered_cell_opens_it_alone() {
    let mut b = board_with(3, 3, 1);
    assert!(b.place_mines_from(&vec![(2, 2)]));
    assert!(b.reveal_cell(1, 1));
    for y in 0..3 {
        for x in 0..3 {
            if (x, y) == (1, 1) {
                assert_eq!(b.cell_at(x, y), CellState::Revealed(1));
            } else {
                assert_eq!(b.cell_at(x, y), CellState::Hidden);
            }
        }
    }
}

#[test]
fn flood_fill_opens_the_zero_region_and_its_border() {
    // 5x4, mines in the right column at (4,0) and (4,3)
    let mut b = board_with(5, 4, 2);
    assert!(b.place_mines_from(&vec![(4, 0), (4, 3)]));
    assert!(b.reveal_cell(0, 0));
    let expected = [
        [0u8, 0, 0, 1, 9],
        [0, 0, 0, 1, 1],
        [0, 0, 0, 1, 1],
        [0, 0, 0, 1, 9],
    ];
    for y in 0..4 {
        for x in 0..5 {
            if expected[y][x] == 9 {
                assert_eq!(b.cell_at(x, y), CellState::Hidden);
            } else if x == 4 {
                // beyond the numbered border: not reached
                assert_eq!(b.cell_at(x, y), CellState::Hidden);
            } else {
                assert_eq!(b.cell_at(x, y), CellState::Revealed(expected[y][x]));
            }
        }
    }
    assert!(!b.is_win());
}

#[test]
fn flood_fill_stops_at_flags() {
    // 5x1 without mines: a flag in the middle cuts the row in two
    let mut b = board_with(5, 1, 0);
    b.toggle_flag(2, 0);
    assert!(b.reveal_cell(0, 0));
    assert_eq!(b.cell_at(0, 0), CellState::Revealed(0));
    assert_eq!(b.cell_at(1, 0), CellState::Revealed(0));
    assert_eq!(b.cell_at(2, 0), CellState::Flagged);
    assert_eq!(b.cell_at(3, 0), CellState::Hidden);
    assert_eq!(b.cell_at(4, 0), CellState::Hidden);
    assert!(!b.is_win());
    // Unflagged, the cell is hidden next to a revealed zero; a reveal goes on
    b.toggle_flag(2, 0);
    assert_eq!(b.cell_at(2, 0), CellState::Hidden);
    assert!(b.reveal_cell(2, 0));
    for x in 0..5 {
        assert_eq!(b.cell_at(x, 0), CellState::Revealed(0));
    }
    assert!(b.is_win());
}

#[test]
fn flood_fill_passes_diagonals() {
    // Mines at (1,0) and (0,1) wall off the corner (0,0) but for nothing:
    // the corner has two mines around it and opens alone.
    let mut b = board_with(4, 4, 2);
    assert!(b.place_mines_from(&vec![(1, 0), (0, 1)]));
    assert!(b.reveal_cell(3, 3));
    let expected = [
        [7u8, 9, 1, 0],
        [9, 2, 1, 0],
        [1, 1, 0, 0],
        [0, 0, 0, 0],
    ];
    for y in 0..4 {
        for x in 0..4 {
            match expected[y][x] {
                7 | 9 => assert_eq!(b.cell_at(x, y), CellState::Hidden),
                n => assert_eq!(b.cell_at(x, y), CellState::Revealed(n)),
            }
        }
    }
    assert!(!b.is_win());
    assert!(b.reveal_cell(0, 0));
    assert_eq!(b.cell_at(0, 0), CellState::Revealed(2));
    assert!(b.is_win());
}

#[test]
fn flood_fill_on_a_large_board() {
    let mut b = board_with(60, 40, 0);
    assert!(b.reveal_cell(30, 20));
    assert!(b.is_win());
    assert_eq!(b.cell_at(59, 39), CellState::Revealed(0));
    assert_eq!(b.cell_at(0, 0), CellState::Revealed(0));
}

#[test]
fn every_revealed_number_is_the_count_of_adjacent_mines() {
    for _ in 0..30 {
        let mut b = board_with(8, 6, 9);
        assert!(b.reveal_cell(3, 3));
        for y in 0..6 {
            for x in 0..8 {
                if let CellState::Revealed(n) = b.cell_at(x, y) {
                    assert!(!b.is_mine(x, y));
                    let mut around = 0u8;
                    for (nx, ny) in b.neighbors(x, y) {
                        if b.is_mine(nx, ny) {
                            around += 1;
                        }
                    }
                    assert_eq!(n, around);
                    if n == 0 {
                        // closure: all neighbors of an opened zero are open
                        for (nx, ny) in b.neighbors(x, y) {
                            assert!(matches!(b.cell_at(nx, ny), CellState::Revealed(_)));
                        }
                    }
                }
            }
        }
    }
}

#[test]
fn toggle_flag_twice_restores_and_revealed_is_untouched() {
    let mut b = board_with(3, 3, 1);
    assert!(b.place_mines_from(&vec![(2, 2)]));
    assert!(b.reveal_cell(1, 1));
    b.toggle_flag(1, 1);
    assert_eq!(b.cell_at(1, 1), CellState::Revealed(1));
    assert_eq!(b.flags_count(), 0);
    b.toggle_flag(0, 2);
    assert_eq!(b.cell_at(0, 2), CellState::Flagged);
    assert_eq!(b.flags_count(), 1);
    b.toggle_flag(0, 2);
    assert_eq!(b.cell_at(0, 2), CellState::Hidden);
    assert_eq!(b.flags_count(), 0);
    // off the grid nothing happens
    b.toggle_flag(3, 3);
    b.toggle_flag(usize::MAX, 0);
    assert_eq!(b.flags_count(), 0);
}

#[test]
fn flags_count_counts_flagged_cells() {
    let mut b = board_with(4, 3, 2);
    assert_eq!(b.flags_count(), 0);
    b.toggle_flag(0, 0);
    b.toggle_flag(3, 2);
    b.toggle_flag(1, 1);
    assert_eq!(b.flags_count(), 3);
    b.toggle_flag(1, 1);
    assert_eq!(b.flags_count(), 2);
    for y in 0..3 {
        for x in 0..4 {
            b.toggle_flag(x, y);
        }
    }
    // the two flags are gone, the ten other cells are flagged
    assert_eq!(b.flags_count(), 10);
}

#[test]
fn chord_is_gated() {
    let mut b = board_with(3, 3, 1);
    assert!(b.place_mines_from(&vec![(2, 2)]));
    // hidden, flagged, off the grid: no-ops
    assert!(b.chord(1, 1));
    b.toggle_flag(0, 0);
    assert!(b.chord(0, 0));
    b.toggle_flag(0, 0);
    assert!(b.chord(5, 5));
    for y in 0..3 {
        for x in 0..3 {
            assert_eq!(b.cell_at(x, y), CellState::Hidden);
        }
    }
    // a revealed number with too many flags: no-op
    assert!(b.reveal_cell(1, 1));
    b.toggle_flag(0, 0);
    b.toggle_flag(2, 2);
    assert!(b.chord(1, 1));
    for y in 0..3 {
        for x in 0..3 {
            let expected = match (x, y) {
                (1, 1) => CellState::Revealed(1),
                (0, 0) | (2, 2) => CellState::Flagged,
                _ => CellState::Hidden,
            };
            assert_eq!(b.cell_at(x, y), expected);
        }
    }
}

#[test]
fn chord_on_a_zero_is_a_noop() {
    let mut b = board_with(5, 1, 1);
    assert!(b.place_mines_from(&vec![(4, 0)]));
    b.toggle_flag(1, 0);
    assert!(b.reveal_cell(0, 0));
    assert_eq!(b.cell_at(0, 0), CellState::Revealed(0));
    b.toggle_flag(1, 0);
    // (1,0) is hidden next to the revealed zero; chording the zero does nothing
    assert!(b.chord(0, 0));
    assert_eq!(b.cell_at(1, 0), CellState::Hidden);
}

#[test]
fn chord_reveals_the_rest_after_hitting_a_mine() {
    // 3x3, mine at (0,0); the player flags (2,2) instead
    let mut b = board_with(3, 3, 1);
    assert!(b.place_mines_from(&vec![(0, 0)]));
    assert!(b.reveal_cell(1, 1));
    b.toggle_flag(2, 2);
    assert!(!b.chord(1, 1));
    // the mine is not uncovered, the flag stays, all other neighbors are open
    assert_eq!(b.cell_at(0, 0), CellState::Hidden);
    assert_eq!(b.cell_at(2, 2), CellState::Flagged);
    assert_eq!(b.cell_at(1, 0), CellState::Revealed(1));
    assert_eq!(b.cell_at(0, 1), CellState::Revealed(1));
    assert_eq!(b.cell_at(2, 0), CellState::Revealed(0));
    assert_eq!(b.cell_at(2, 1), CellState::Revealed(0));
    assert_eq!(b.cell_at(0, 2), CellState::Revealed(0));
    assert_eq!(b.cell_at(1, 2), CellState::Revealed(0));
}

#[test]
fn chord_floods_from_zero_neighbors() {
    // 5x3 with one mine at (0,1); chording (1,1) with the mine flagged
    // opens the whole rest of the board through the zeros to the right.
    let mut b = board_with(5, 3, 1);
    assert!(b.place_mines_from(&vec![(0, 1)]));
    assert!(b.reveal_cell(1, 1));
    assert_eq!(b.cell_at(1, 1), CellState::Revealed(1));
    b.toggle_flag(0, 1);
    assert!(b.chord(1, 1));
    for y in 0..3 {
        for x in 0..5 {
            if (x, y) == (0, 1) {
                assert_eq!(b.cell_at(x, y), CellState::Flagged);
            } else {
                assert!(matches!(b.cell_at(x, y), CellState::Revealed(_)));
            }
        }
    }
    assert!(b.is_win());
}

#[test]
fn win_ignores_flags_and_stays() {
    let mut b = board_with(2, 2, 1);
    assert!(b.place_mines_from(&vec![(0, 0)]));
    assert!(!b.is_win());
    assert!(b.reveal_cell(1, 0));
    assert!(!b.is_win());
    assert!(b.reveal_cell(0, 1));
    assert!(!b.is_win());
    assert!(b.reveal_cell(1, 1));
    assert!(b.is_win());
    // whatever follows, the board stays won
    b.toggle_flag(0, 0);
    assert!(b.is_win());
    b.toggle_flag(0, 0);
    assert!(b.is_win());
    assert!(b.chord(1, 1));
    assert!(b.reveal_cell(1, 1));
    assert!(!b.reveal_cell(0, 0));
    assert!(b.is_win());
}

#[test]
fn a_flag_on_a_safe_cell_keeps_the_game_open() {
    let mut b = board_with(2, 1, 0);
    b.toggle_flag(1, 0);
    assert!(b.reveal_cell(0, 0));
    assert!(!b.is_win());
    b.toggle_flag(1, 0);
    assert!(b.reveal_cell(1, 0));
    assert!(b.is_win());
}

#[test]
fn render_writes_a_glyph_and_a_space_for_each_cell() {
    let mut b = board_with(3, 2, 1);
    assert!(b.place_mines_from(&vec![(2, 1)]));
    assert!(b.reveal_cell(0, 0));
    b.toggle_flag(2, 1);
    let rows: Vec<String> = b.render().into_iter().map(|r| r.into_iter().collect()).collect();
    assert_eq!(rows, vec!["0 1 # ".to_string(), "0 1 F ".to_string()]);
}
