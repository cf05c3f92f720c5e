use game_of_life_core::utils::{to_index, to_position};

#[test]
fn to_index_to_position() {
    let width: u32 = 10;
    let height: u32 = 5;
    for row in 0..height {
        for column in 0..width {
            let index = to_index(row, column, width);
            let (_row, _column) = to_position(index, width as usize);
            assert_eq!(_column, column);
            assert_eq!(_row, row);
        }
    }
}

#[test]
fn to_index_is_row_times_width_plus_column() {
    assert_eq!(to_index(0, 0, 10), 0);
    assert_eq!(to_index(3, 4, 10), 34);
    assert_eq!(to_index(2, 0, 7), 14);
    assert_eq!(to_index(5, 3, 0), 3);
}

#[test]
fn to_index_does_not_wrap_at_32_bits() {
    if usize::BITS >= 64 {
        let index = to_index(65_536, 1, 65_536);
        assert_eq!(index as u64, 4_294_967_297u64);
    }
}

#[test]
fn to_position_is_quotient_and_remainder() {
    assert_eq!(to_position(0, 10), (0, 0));
    assert_eq!(to_position(34, 10), (3, 4));
    assert_eq!(to_position(14, 7), (2, 0));
    assert_eq!(to_position(9, 1), (9, 0));
}

#[test]
fn position_of_index_round_trip_with_one_column() {
    for row in 0..20u32 {
        let index = to_index(row, 0, 1);
        assert_eq!(to_position(index, 1), (row, 0));
    }
}
