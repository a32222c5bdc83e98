use riff::colour_delta::Pixel;
use riff::grid::PixelGrid;

fn px(r: u8, g: u8, b: u8, a: u8) -> Pixel {
    Pixel { r, g, b, a }
}

#[test]
fn a_grid_keeps_its_size_and_samples() {
    let samples: Vec<u8> = (0..24).collect();
    let grid = PixelGrid::from_raw(3, 2, samples.clone()).unwrap();
    assert_eq!(grid.dimensions(), (3, 2));
    assert_eq!(grid.into_raw(), samples);
}

#[test]
fn pixels_lie_row_by_row() {
    let samples: Vec<u8> = (0..24).collect();
    let grid = PixelGrid::from_raw(3, 2, samples).unwrap();
    assert_eq!(grid.get_pixel(0, 0), Some(px(0, 1, 2, 3)));
    assert_eq!(grid.get_pixel(1, 0), Some(px(4, 5, 6, 7)));
    assert_eq!(grid.get_pixel(2, 0), Some(px(8, 9, 10, 11)));
    assert_eq!(grid.get_pixel(0, 1), Some(px(12, 13, 14, 15)));
    assert_eq!(grid.get_pixel(2, 1), Some(px(20, 21, 22, 23)));
}

#[test]
fn there_is_no_pixel_outside_the_grid() {
    let grid = PixelGrid::from_raw(3, 2, vec![9; 24]).unwrap();
    assert_eq!(grid.get_pixel(3, 0), None);
    assert_eq!(grid.get_pixel(0, 2), None);
    assert_eq!(grid.get_pixel(3, 2), None);
    assert_eq!(grid.get_pixel(u32::MAX, u32::MAX), None);
}

#[test]
fn too_few_samples_make_no_grid() {
    assert!(PixelGrid::from_raw(3, 2, vec![0; 23]).is_none());
    assert!(PixelGrid::from_raw(1, 1, vec![]).is_none());
    assert!(PixelGrid::from_raw(u32::MAX, u32::MAX, vec![0; 16]).is_none());
}

#[test]
fn spare_samples_are_kept() {
    let grid = PixelGrid::from_raw(1, 1, vec![1, 2, 3, 4, 5, 6]).unwrap();
    assert_eq!(grid.dimensions(), (1, 1));
    assert_eq!(grid.get_pixel(0, 0), Some(px(1, 2, 3, 4)));
    assert_eq!(grid.get_pixel(1, 0), None);
    assert_eq!(grid.into_raw(), vec![1, 2, 3, 4, 5, 6]);
}

#[test]
fn a_grid_may_have_no_pixels() {
    let grid = PixelGrid::from_raw(0, 0, vec![]).unwrap();
    assert_eq!(grid.dimensions(), (0, 0));
    assert_eq!(grid.get_pixel(0, 0), None);
    let flat = PixelGrid::from_raw(5, 0, vec![]).unwrap();
    assert_eq!(flat.dimensions(), (5, 0));
    assert_eq!(flat.get_pixel(0, 0), None);
}
