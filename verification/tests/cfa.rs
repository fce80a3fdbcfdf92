use pixelshift::cfa::{filter_color, Color};

#[test]
fn tile_is_red_green_over_green_blue() {
    let first_row: Vec<Color> = (0..4).map(|col| filter_color(0, col)).collect();
    let second_row: Vec<Color> = (0..4).map(|col| filter_color(1, col)).collect();
    assert_eq!(first_row, vec![Color::Red, Color::Green, Color::Red, Color::Green]);
    assert_eq!(second_row, vec![Color::Green, Color::Blue, Color::Green, Color::Blue]);
}

#[test]
fn tile_repeats_every_two_rows_and_four_columns() {
    for row in 0..12u32 {
        for col in 0..12u32 {
            assert_eq!(filter_color(row + 2, col), filter_color(row, col));
            assert_eq!(filter_color(row, col + 4), filter_color(row, col));
        }
    }
}

#[test]
fn every_block_holds_two_green_one_red_one_blue() {
    for row in 0..9u32 {
        for col in 0..9u32 {
            let block = [
                filter_color(row, col),
                filter_color(row, col + 1),
                filter_color(row + 1, col),
                filter_color(row + 1, col + 1),
            ];
            let count = |color: Color| block.iter().filter(|c| **c == color).count();
            assert_eq!(count(Color::Green), 2);
            assert_eq!(count(Color::Red), 1);
            assert_eq!(count(Color::Blue), 1);
        }
    }
}

#[test]
fn tiling_reaches_the_largest_coordinates() {
    assert_eq!(filter_color(u32::MAX, u32::MAX), Color::Blue);
    assert_eq!(filter_color(u32::MAX, 0), Color::Green);
    assert_eq!(filter_color(0, u32::MAX), Color::Green);
    assert_eq!(filter_color(u32::MAX - 1, u32::MAX - 1), Color::Red);
}
