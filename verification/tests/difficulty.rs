use minesweeper::board::Board;
use minesweeper::difficulty::Difficulty;

#[test]
fn parameters_match_classic_values() {
    assert_eq!(Difficulty::Easy.parameters(), (9, 9, 10));
    assert_eq!(Difficulty::Medium.parameters(), (16, 16, 40));
    assert_eq!(Difficulty::Hard.parameters(), (30, 16, 99));
}

#[test]
fn cycle_rotates_in_order() {
    assert_eq!(Difficulty::Easy.cycle(), Difficulty::Medium);
    assert_eq!(Difficulty::Medium.cycle(), Difficulty::Hard);
    assert_eq!(Difficulty::Hard.cycle(), Difficulty::Easy);
}

#[test]
fn every_preset_builds_a_board() {
    for d in [Difficulty::Easy, Difficulty::Medium, Difficulty::Hard] {
        let (w, h, m) = d.parameters();
        assert!(w > 0 && h > 0 && m < w * h);
        let b = Board::new(w, h, m);
        assert_eq!((b.width(), b.height(), b.mines()), (w, h, m));
        assert_eq!(d.cycle().cycle().cycle(), d);
    }
}
