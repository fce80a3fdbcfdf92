use pixelshift::grid::{fits, PixelGrid, Rgb16};

#[test]
fn new_grid_is_black() {
    let grid = PixelGrid::new(3, 2);
    assert_eq!(grid.width(), 3);
    assert_eq!(grid.height(), 2);
    for y in 0..2 {
        for x in 0..3 {
            assert_eq!(grid.pixel(x, y), Some(Rgb16 { red: 0, green: 0, blue: 0 }));
        }
    }
    assert_eq!(grid.into_samples(), vec![0u16; 18]);
}

#[test]
fn grid_has_no_pixel_outside() {
    let grid = PixelGrid::new(3, 2);
    assert_eq!(grid.pixel(3, 0), None);
    assert_eq!(grid.pixel(0, 2), None);
    assert_eq!(grid.pixel(2, 1), Some(Rgb16 { red: 0, green: 0, blue: 0 }));
    assert_eq!(grid.pixel(u32::MAX, u32::MAX), None);
}

#[test]
fn set_pixel_replaces_one_pixel() {
    let mut grid = PixelGrid::new(2, 2);
    let pixel = Rgb16 { red: 1, green: 2, blue: 3 };
    assert!(grid.set_pixel(1, 0, pixel));
    assert_eq!(grid.pixel(1, 0), Some(pixel));
    assert_eq!(grid.pixel(0, 0), Some(Rgb16 { red: 0, green: 0, blue: 0 }));
    assert_eq!(grid.pixel(0, 1), Some(Rgb16 { red: 0, green: 0, blue: 0 }));
    assert_eq!(grid.pixel(1, 1), Some(Rgb16 { red: 0, green: 0, blue: 0 }));
    assert_eq!(grid.width(), 2);
    assert_eq!(grid.height(), 2);
}

#[test]
fn set_pixel_outside_changes_nothing() {
    let mut grid = PixelGrid::new(2, 1);
    let pixel = Rgb16 { red: 9, green: 9, blue: 9 };
    assert!(!grid.set_pixel(2, 0, pixel));
    assert!(!grid.set_pixel(0, 1, pixel));
    assert_eq!(grid.into_samples(), vec![0u16; 6]);
}

#[test]
fn samples_come_row_by_row_red_green_blue() {
    let mut grid = PixelGrid::new(2, 2);
    grid.set_pixel(0, 0, Rgb16 { red: 1, green: 2, blue: 3 });
    grid.set_pixel(1, 0, Rgb16 { red: 4, green: 5, blue: 6 });
    grid.set_pixel(0, 1, Rgb16 { red: 7, green: 8, blue: 9 });
    grid.set_pixel(1, 1, Rgb16 { red: 10, green: 11, blue: 65535 });
    assert_eq!(grid.into_samples(), vec![1, 2, 3, 4, 5, 6, 7, 8, 9, 10, 11, 65535]);
}

#[test]
fn empty_grid_has_no_samples() {
    let grid = PixelGrid::new(0, 5);
    assert_eq!(grid.width(), 0);
    assert_eq!(grid.height(), 5);
    assert_eq!(grid.pixel(0, 0), None);
    assert_eq!(grid.into_samples(), Vec::<u16>::new());
}

#[test]
fn samples_rebuild_the_image() {
    let mut grid = PixelGrid::new(2, 1);
    grid.set_pixel(1, 0, Rgb16 { red: 4, green: 5, blue: 6 });
    let image: image::ImageBuffer<image::Rgb<u16>, Vec<u16>> =
        image::ImageBuffer::from_raw(2, 1, grid.into_samples()).unwrap();
    assert_eq!(image.get_pixel(0, 0).0, [0, 0, 0]);
    assert_eq!(image.get_pixel(1, 0).0, [4, 5, 6]);
}

#[test]
fn fits_tells_what_can_be_allocated() {
    assert!(fits(0, 0));
    assert!(fits(6000, 4000));
    assert!(fits(u32::MAX, 0));
    assert!(!fits(u32::MAX, u32::MAX));
    let limit = isize::MAX as u128;
    for (width, height) in [(1u32 << 31, 1u32 << 30), (1 << 16, 1 << 16), (u32::MAX, 1 << 29)] {
        let bytes = width as u128 * height as u128 * 6;
        assert_eq!(fits(width, height), bytes <= limit);
    }
}
