use minesweeper::app::Status;
use minesweeper::board::{Board, CellState};
use minesweeper::ui::{
    board_glyphs, cell_symbol_and_style, centered_percentages, clock_face, mines_left,
    overlay_message, Tint,
};

fn text(symbol: &[char]) -> String {
    symbol.iter().collect()
}

#[test]
fn hidden_flagged_and_zero_have_their_symbols() {
    let g = cell_symbol_and_style(CellState::Hidden);
    assert_eq!(text(&g.symbol), "\u{25A0}");
    assert_eq!((g.tint, g.bold, g.highlight), (Tint::DarkGray, false, false));
    let g = cell_symbol_and_style(CellState::Flagged);
    assert_eq!(text(&g.symbol), "\u{2691}");
    assert_eq!((g.tint, g.bold, g.highlight), (Tint::Red, false, false));
    let g = cell_symbol_and_style(CellState::Revealed(0));
    assert_eq!(text(&g.symbol), "\u{00B7}");
    assert_eq!((g.tint, g.bold, g.highlight), (Tint::Gray, false, false));
}

#[test]
fn numbers_are_bold_digits_each_in_its_color() {
    let tints = [
        Tint::Blue,
        Tint::Green,
        Tint::Red,
        Tint::Magenta,
        Tint::LightRed,
        Tint::Cyan,
        Tint::Yellow,
        Tint::LightMagenta,
    ];
    for n in 1u8..=8 {
        let g = cell_symbol_and_style(CellState::Revealed(n));
        assert_eq!(text(&g.symbol), format!("{n}"));
        assert_eq!(g.tint, tints[(n - 1) as usize]);
        assert!(g.bold);
        assert!(!g.highlight);
    }
}

#[test]
fn numbers_beyond_eight_are_written_out() {
    for n in [9u8, 10, 42, 99, 100, 109, 110, 200, 255] {
        let g = cell_symbol_and_style(CellState::Revealed(n));
        assert_eq!(text(&g.symbol), format!("{n}"));
        assert_eq!(g.tint, Tint::LightMagenta);
        assert!(g.bold);
    }
}

#[test]
fn board_glyphs_follow_the_cells_and_the_cursor() {
    let mut b = Board::new(3, 2, 1);
    assert!(b.place_mines_from(&vec![(2, 1)]));
    assert!(b.reveal_cell(0, 0));
    b.toggle_flag(2, 1);
    let rows = board_glyphs(&b, Some((1, 1)));
    assert_eq!(rows.len(), 2);
    let symbols: Vec<Vec<String>> = rows
        .iter()
        .map(|r| r.iter().map(|g| text(&g.symbol)).collect())
        .collect();
    assert_eq!(
        symbols,
        vec![
            vec!["\u{00B7}".to_string(), "1".to_string(), "\u{25A0}".to_string()],
            vec!["\u{00B7}".to_string(), "1".to_string(), "\u{2691}".to_string()],
        ]
    );
    for y in 0..2 {
        assert_eq!(rows[y].len(), 3);
        for x in 0..3 {
            assert_eq!(rows[y][x].highlight, (x, y) == (1, 1));
            assert_eq!(rows[y][x], {
                let mut g = cell_symbol_and_style(b.cell_at(x, y));
                g.highlight = (x, y) == (1, 1);
                g
            });
        }
    }
    // without a cursor, or with one off the grid, nothing is highlighted
    for cursor in [None, Some((3, 0)), Some((0, 2))] {
        let rows = board_glyphs(&b, cursor);
        assert!(rows.iter().all(|r| r.iter().all(|g| !g.highlight)));
    }
}

#[test]
fn mines_left_never_goes_below_zero() {
    assert_eq!(mines_left(10, 0), 10);
    assert_eq!(mines_left(10, 3), 7);
    assert_eq!(mines_left(10, 10), 0);
    assert_eq!(mines_left(10, 11), 0);
    assert_eq!(mines_left(0, usize::MAX), 0);
    assert_eq!(mines_left(usize::MAX, 1), usize::MAX - 1);
}

#[test]
fn clock_face_splits_minutes_and_seconds() {
    assert_eq!(clock_face(0), (0, 0));
    assert_eq!(clock_face(59), (0, 59));
    assert_eq!(clock_face(60), (1, 0));
    assert_eq!(clock_face(125), (2, 5));
    assert_eq!(clock_face(3599), (59, 59));
    assert_eq!(clock_face(3600), (60, 0));
    assert_eq!(clock_face(u64::MAX), (u64::MAX / 60, 15));
}

#[test]
fn overlay_shows_when_the_game_is_over() {
    assert_eq!(overlay_message(Status::Playing), None);
    assert_eq!(
        overlay_message(Status::Win),
        Some("You win! Press R to restart or D to change difficulty")
    );
    assert_eq!(
        overlay_message(Status::Lose),
        Some("Boom! You lost. Press R to restart or D to change difficulty")
    );
}

#[test]
fn centered_percentages_have_equal_margins() {
    assert_eq!(centered_percentages(60), (20, 60, 20));
    assert_eq!(centered_percentages(25), (37, 25, 37));
    assert_eq!(centered_percentages(100), (0, 100, 0));
    assert_eq!(centered_percentages(0), (50, 0, 50));
    assert_eq!(centered_percentages(99), (0, 99, 0));
}
