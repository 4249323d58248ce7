//! The bingo card: squares, coordinates, marking and win detection.

use ctf_points::bingo::{bingo_coord_to_image_coord, BingoChecker, BingoSquare};
use ctf_points::competition::Competition;
use ctf_points::email::EmailClient;
use ctf_points::error::Error;

#[test]
fn squares_map_to_grid_coordinates() {
    assert_eq!(BingoSquare::from_coords(0, 0), Some(BingoSquare::Drama));
    assert_eq!(BingoSquare::from_coords(2, 2), Some(BingoSquare::Free));
    assert_eq!(BingoSquare::from_coords(4, 4), Some(BingoSquare::InfraHacked));
    // Off the card: index 25 and up is no square.
    assert_eq!(BingoSquare::from_coords(0, 5), None);
    assert_eq!(BingoSquare::Free.index(), 12);
    assert_eq!(BingoSquare::Free.bit(), 1 << 12);
}

#[test]
fn image_coordinates_follow_grid_pitch() {
    assert_eq!(bingo_coord_to_image_coord(0, 0), (50, 175));
    assert_eq!(bingo_coord_to_image_coord(4, 4), (90 * 4 + 50, 97 * 4 + 175));
}

#[test]
fn competition_card_add_remove_contains() {
    let mut comp = Competition { channel_id: 1, name: String::from("c"), bingo: 0 };
    assert!(!comp.bingo_contains(BingoSquare::Free));
    comp.bingo_add(BingoSquare::Free);
    comp.bingo_add(BingoSquare::Drama);
    assert!(comp.bingo_contains(BingoSquare::Free));
    assert!(comp.bingo_contains(BingoSquare::Drama));
    comp.bingo_remove(BingoSquare::Drama);
    assert!(!comp.bingo_contains(BingoSquare::Drama));
    assert_eq!(comp.bingo, 1 << 12);
}

#[test]
fn full_column_and_diagonal_win() {
    let mut checker = BingoChecker::new();
    // Mark all of column 2.
    for y in 0..5 {
        checker.mark(2, y);
    }
    let lines = checker.winning_lines();
    assert_eq!(lines, vec![((2, 0), (2, 4))]);

    // Mark the main diagonal too; (2, 2) is already marked by the column,
    // and each square is marked at most once, as when scanning the card.
    let mut checker = BingoChecker::new();
    for y in 0..5 {
        checker.mark(2, y);
    }
    for i in [0u32, 1, 3, 4] {
        checker.mark(i, i);
    }
    let lines = checker.winning_lines();
    assert_eq!(lines, vec![((2, 0), (2, 4)), ((0, 0), (4, 4))]);
}

#[test]
fn no_win_without_a_complete_line() {
    let mut checker = BingoChecker::new();
    checker.mark(0, 0);
    checker.mark(1, 0);
    checker.mark(4, 0);
    checker.mark(0, 4);
    assert!(checker.winning_lines().is_empty());
}

#[test]
fn row_and_antidiagonal_win() {
    let mut checker = BingoChecker::new();
    for x in 0..5 {
        checker.mark(x, 1);
    }
    assert_eq!(checker.winning_lines(), vec![((0, 1), (4, 1))]);

    let mut checker = BingoChecker::new();
    for y in 0..5 {
        checker.mark(4 - y, y);
    }
    assert_eq!(checker.winning_lines(), vec![((4, 0), (0, 4))]);
}

#[test]
fn card_scan_collects_marks_and_detects_wins() {
    let mut comp = Competition { channel_id: 1, name: String::from("c"), bingo: 0 };
    comp.bingo_add(BingoSquare::Drama); // grid (0, 0)
    comp.bingo_add(BingoSquare::Free); // grid (2, 2)
    let (checker, positions) = comp.bingo_card_scan();
    // The card is scanned column by column.
    assert_eq!(positions, vec![(10, 145), (90 * 2 + 10, 97 * 2 + 145)]);
    assert!(checker.winning_lines().is_empty());

    // A whole column checked off wins along that column.
    let mut comp = Competition { channel_id: 1, name: String::from("c"), bingo: 0 };
    for y in 0..5 {
        comp.bingo_add(BingoSquare::from_coords(0, y).unwrap());
    }
    let (checker, positions) = comp.bingo_card_scan();
    assert_eq!(positions.len(), 5);
    assert_eq!(checker.winning_lines(), vec![((0, 0), (0, 4))]);
}

#[test]
fn email_client_holds_token() {
    let client = EmailClient::new(String::from("SECRET-REDACTED"));
    assert_eq!(client.api_token(), "SECRET-REDACTED");
}

#[test]
fn error_descriptions_are_short_phrases() {
    assert_eq!(Error::NotFound.describe(), "not found");
    assert_eq!(Error::ConstraintViolation.describe(), "constraint violation");
    assert_eq!(Error::StorageFailure.describe(), "storage failure");
    assert_eq!(Error::CorruptRecord.describe(), "corrupt record");
}
