use fourmation_core::Board;
use fourmation_core::Position;

const ALL: u64 = 0x1FFFFFFFFFFFF;

fn single(index: u64) -> Board {
    Board::singleton(Position::new(index))
}

#[test]
fn singleton_sets_exactly_one_cell() {
    for i in 0..49u64 {
        let b = single(i);
        assert_eq!(b.to_u64(), 1u64 << i);
        for j in 0..49u64 {
            assert_eq!(b.get(Position::new(j)), i == j);
        }
    }
}

#[test]
fn new_roundtrips_through_to_u64() {
    let word: u64 = 0b1010_0000_0001;
    assert_eq!(Board::new(word).to_u64(), word);
    assert_eq!(Board::new(0).to_u64(), 0);
    assert_eq!(Board::new(ALL).to_u64(), ALL);
}

#[test]
fn east_from_rightmost_column_is_empty() {
    for row in 0..7u64 {
        assert_eq!(single(row * 7 + 6).east().to_u64(), 0);
    }
}

#[test]
fn west_from_leftmost_column_is_empty() {
    for row in 0..7u64 {
        assert_eq!(single(row * 7).west().to_u64(), 0);
    }
}

#[test]
fn north_from_top_row_is_empty() {
    for col in 0..7u64 {
        assert_eq!(single(col).north().to_u64(), 0);
    }
}

#[test]
fn south_from_bottom_row_is_empty() {
    for col in 0..7u64 {
        assert_eq!(single(42 + col).south().to_u64(), 0);
    }
}

#[test]
fn diagonal_shifts_leave_their_borders_empty() {
    for row in 0..7u64 {
        assert_eq!(single(row * 7 + 6).northeast().to_u64(), 0);
        assert_eq!(single(row * 7 + 6).southeast().to_u64(), 0);
        assert_eq!(single(row * 7).northwest().to_u64(), 0);
        assert_eq!(single(row * 7).southwest().to_u64(), 0);
    }
    for col in 0..7u64 {
        assert_eq!(single(col).north().to_u64(), 0);
        assert_eq!(single(col).northeast().to_u64(), 0);
        assert_eq!(single(col).northwest().to_u64(), 0);
        assert_eq!(single(42 + col).south().to_u64(), 0);
        assert_eq!(single(42 + col).southeast().to_u64(), 0);
        assert_eq!(single(42 + col).southwest().to_u64(), 0);
    }
}

#[test]
fn shifts_move_a_centre_stone_one_step() {
    // cell 24 is (3, 3); row-major steps: east +1, south +7
    let b = single(24);
    assert_eq!(b.east().to_u64(), 1u64 << 25);
    assert_eq!(b.west().to_u64(), 1u64 << 23);
    assert_eq!(b.north().to_u64(), 1u64 << 17);
    assert_eq!(b.south().to_u64(), 1u64 << 31);
    assert_eq!(b.northeast().to_u64(), 1u64 << 18);
    assert_eq!(b.northwest().to_u64(), 1u64 << 16);
    assert_eq!(b.southeast().to_u64(), 1u64 << 32);
    assert_eq!(b.southwest().to_u64(), 1u64 << 30);
}

#[test]
fn neighbors_of_corner_and_centre() {
    let corner = single(0).neighbors();
    assert_eq!(corner.to_u64(), (1u64 << 1) | (1u64 << 7) | (1u64 << 8));
    let centre = single(24).neighbors();
    let expected: u64 = [16u64, 17, 18, 23, 25, 30, 31, 32]
        .iter()
        .fold(0, |acc, p| acc | (1u64 << p));
    assert_eq!(centre.to_u64(), expected);
}

#[test]
fn set_algebra_on_words() {
    let a = Board::new(0b1100);
    let b = Board::new(0b1010);
    assert_eq!(a.union(b).to_u64(), 0b1110);
    assert_eq!(a.intersect(b).to_u64(), 0b1000);
}

#[test]
fn complement_stays_inside_the_universe() {
    assert_eq!(Board::new(0).complement().to_u64(), ALL);
    assert_eq!(Board::new(ALL).complement().to_u64(), 0);
    let a = Board::new(0b1100);
    assert_eq!(a.complement().to_u64(), ALL ^ 0b1100);
    assert_eq!(a.complement().complement().to_u64(), a.to_u64());
}

#[test]
fn is_empty_tracks_the_word() {
    assert!(Board::new(0).is_empty());
    assert!(!single(48).is_empty());
    assert!(single(5).intersect(single(6)).is_empty());
}
