use connect_four::state::State;

fn mask(bits: &[u32]) -> u64 {
    let mut m: u64 = 0;
    for &b in bits {
        m |= 1u64 << b;
    }
    m
}

fn cell(column: u32, row: u32) -> u32 {
    7 * column + row
}

#[test]
fn four_upwards_is_a_win() {
    assert!(State::win_check(&mask(&[0, 1, 2, 3])));
    assert!(State::win_check(&mask(&[44, 45, 46, 47])));
}

#[test]
fn four_sideways_is_a_win() {
    assert!(State::win_check(&mask(&[0, 7, 14, 21])));
    assert!(State::win_check(&mask(&[26, 33, 40, 47])));
}

#[test]
fn four_on_a_rising_diagonal_is_a_win() {
    assert!(State::win_check(&mask(&[0, 8, 16, 24])));
}

#[test]
fn four_on_a_falling_diagonal_is_a_win() {
    assert!(State::win_check(&mask(&[3, 9, 15, 21])));
}

#[test]
fn three_in_a_line_is_no_win() {
    assert!(!State::win_check(&mask(&[0, 1, 2])));
    assert!(!State::win_check(&mask(&[0, 7, 14])));
    assert!(!State::win_check(&mask(&[0, 8, 16])));
    assert!(!State::win_check(&mask(&[3, 9, 15])));
    assert!(!State::win_check(&0));
}

#[test]
fn a_gap_breaks_the_line() {
    assert!(!State::win_check(&mask(&[0, 1, 2, 4])));
}

#[test]
fn a_line_does_not_run_over_the_top_of_a_column() {
    // The top of column 0 and the bottom of column 1.
    assert!(!State::win_check(&mask(&[4, 5, 7, 8])));
    assert!(!State::win_check(&mask(&[3, 4, 5, 7])));
}

#[test]
fn every_line_on_the_board_is_found() {
    let steps: [(i32, i32); 4] = [(0, 1), (1, 0), (1, 1), (1, -1)];
    let mut lines = 0;
    for column in 0..7i32 {
        for row in 0..6i32 {
            for &(dc, dr) in steps.iter() {
                let end_column = column + 3 * dc;
                let end_row = row + 3 * dr;
                if end_column > 6 || end_row > 5 || end_row < 0 {
                    continue;
                }
                let mut bits: Vec<u32> = Vec::new();
                for k in 0..4i32 {
                    bits.push(cell((column + k * dc) as u32, (row + k * dr) as u32));
                }
                assert!(State::win_check(&mask(&bits)));
                assert!(State::win_check(&(mask(&bits) | mask(&[cell(6, 5), cell(0, 5)]))));
                assert!(!State::win_check(&mask(&bits[..3])));
                assert!(!State::win_check(&mask(&bits[1..])));
                lines += 1;
            }
        }
    }
    assert_eq!(lines, 69);
}
