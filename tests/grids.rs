use atan_square::fraction::ProperFraction;
use atan_square::grid::{check_grid, line_coordinates, lines, GridError, LineId};
use atan_square::inventory::{check_numbers, check_range, InventoryError};
use atan_square::parse::{parse_grid, ParseError};
use atan_square::{check_text, CheckError};

fn frac(numerator: u64, denominator: u64) -> ProperFraction {
    ProperFraction { numerator, denominator }
}

#[test]
fn lines_of_a_three_grid() {
    let all = lines(3);
    assert_eq!(all.len(), 8);
    assert_eq!(all[0], LineId::Row(0));
    assert_eq!(all[4], LineId::Column(1));
    assert_eq!(all[6], LineId::MainDiagonal);
    assert_eq!(all[7], LineId::AntiDiagonal);
    assert_eq!(line_coordinates(3, LineId::Row(1)), vec![(1, 0), (1, 1), (1, 2)]);
    assert_eq!(line_coordinates(3, LineId::Column(2)), vec![(0, 2), (1, 2), (2, 2)]);
    assert_eq!(line_coordinates(3, LineId::MainDiagonal), vec![(0, 0), (1, 1), (2, 2)]);
    assert_eq!(line_coordinates(3, LineId::AntiDiagonal), vec![(0, 2), (1, 1), (2, 0)]);
}

#[test]
fn numbering_accepts_a_range() {
    let grid = vec![vec![frac(1, 4), frac(2, 3)], vec![frac(5, 6), frac(7, 9)]];
    assert_eq!(check_numbers(&grid), Err(InventoryError::OutOfRange { value: 9 }));
    let grid = vec![vec![frac(1, 4), frac(2, 3)], vec![frac(5, 7), frac(6, 8)]];
    assert_eq!(check_numbers(&grid), Err(InventoryError::NotReduced { row: 1, column: 1 }));
    let grid = vec![vec![frac(1, 4), frac(2, 3)], vec![frac(5, 6), frac(7, 8)]];
    assert_eq!(check_numbers(&grid), Ok(()));
}

#[test]
fn numbering_refuses_improper_cells() {
    let grid = vec![vec![frac(3, 2)]];
    assert_eq!(check_numbers(&grid), Err(InventoryError::NotProper { row: 0, column: 0 }));
    let grid = vec![vec![frac(0, 1)]];
    assert_eq!(check_numbers(&grid), Err(InventoryError::NotProper { row: 0, column: 0 }));
    let grid = vec![vec![frac(2, 4)]];
    assert_eq!(check_numbers(&grid), Err(InventoryError::NotReduced { row: 0, column: 0 }));
}

#[test]
fn coprime_cell_passes_the_divisor_check() {
    // 2/3 is reduced: the cell check passes and the range check refuses 3.
    let grid = vec![vec![frac(2, 3)]];
    assert_eq!(check_numbers(&grid), Err(InventoryError::OutOfRange { value: 3 }));
}

#[test]
fn numbering_refuses_duplicates() {
    let grid = vec![vec![frac(1, 4), frac(1, 3)], vec![frac(5, 6), frac(7, 8)]];
    assert_eq!(check_numbers(&grid), Err(InventoryError::Duplicate { value: 1 }));
}

#[test]
fn range_check_values() {
    assert_eq!(check_range(&vec![]), Ok(()));
    assert_eq!(check_range(&vec![2, 1, 3]), Ok(()));
    assert_eq!(check_range(&vec![2, 2, 3]), Err(InventoryError::Duplicate { value: 2 }));
    assert_eq!(check_range(&vec![0, 1]), Err(InventoryError::OutOfRange { value: 0 }));
}

#[test]
fn grid_shape_is_checked() {
    let grid = vec![vec![frac(1, 2), frac(3, 4)], vec![frac(5, 6)]];
    assert_eq!(check_grid(&grid), Err(GridError::NotSquare { row: 1 }));
}

#[test]
fn one_cell_grid_misses_the_turn() {
    let grid = vec![vec![frac(1, 2)]];
    assert_eq!(check_grid(&grid), Err(GridError::AngleMismatch { line: LineId::Row(0) }));
    assert_eq!(check_grid(&grid), check_grid(&grid));
}

#[test]
fn grid_numbering_is_checked_first() {
    let grid = vec![vec![frac(1, 3)]];
    assert_eq!(
        check_grid(&grid),
        Err(GridError::InvariantViolation(InventoryError::OutOfRange { value: 3 }))
    );
}

#[test]
fn parse_reads_a_grid() {
    let g = parse_grid(b"1/4 2/3\n5/6\t 7/8\r\n", 2).unwrap();
    assert_eq!(g, vec![vec![frac(1, 4), frac(2, 3)], vec![frac(5, 6), frac(7, 8)]]);
}

#[test]
fn parse_errors() {
    assert_eq!(parse_grid(b"1/4 23\n5/6 7/8", 2), Err(ParseError::BadToken { line: 0, token: 1 }));
    assert_eq!(parse_grid(b"1/4 2/3\n5/6 7/x", 2), Err(ParseError::BadToken { line: 1, token: 1 }));
    assert_eq!(parse_grid(b"1/4 /3\n5/6 7/8", 2), Err(ParseError::BadToken { line: 0, token: 1 }));
    assert_eq!(parse_grid(b"1/4 2/3/5\n5/6 7/8", 2), Err(ParseError::BadToken { line: 0, token: 1 }));
    assert_eq!(
        parse_grid(b"18446744073709551616/1 2/3\n5/6 7/8", 2),
        Err(ParseError::BadToken { line: 0, token: 0 })
    );
    assert_eq!(
        parse_grid(b"1/4 2/3 9/10\n5/6 7/8", 2),
        Err(ParseError::WrongTokenCount { line: 0, count: 3 })
    );
    assert_eq!(parse_grid(b"1/4 2/3\n", 2), Err(ParseError::WrongLineCount { count: 1 }));
    assert_eq!(parse_grid(b"", 0), Ok(vec![]));
}

#[test]
fn parse_largest_number() {
    let g = parse_grid(b"1/18446744073709551615", 1).unwrap();
    assert_eq!(g, vec![vec![frac(1, u64::MAX)]]);
}

#[test]
fn text_check_reports_stage() {
    assert_eq!(
        check_text(b"1/2 3/4\n", 2),
        Err(CheckError::Parse(ParseError::WrongLineCount { count: 1 }))
    );
    assert_eq!(
        check_text(b"1/2", 1),
        Err(CheckError::Grid(GridError::AngleMismatch { line: LineId::Row(0) }))
    );
    assert_eq!(check_text(b"1/2", 1), check_text(b"1/2", 1));
}
