use riff::viewport::{is_past_viewport, is_within_viewport, normalise_viewport};

#[test]
fn bounds_are_inclusive() {
    assert_eq!(normalise_viewport(Some([1, 0, 2, 1]), 3, 1), Some([1, 0, 2, 0]));
    assert_eq!(normalise_viewport(Some([2, 3, 4, 5]), 10, 10), Some([2, 3, 5, 7]));
    assert_eq!(normalise_viewport(Some([0, 0, 10, 10]), 10, 10), Some([0, 0, 9, 9]));
    assert_eq!(normalise_viewport(Some([9, 9, 1, 1]), 10, 10), Some([9, 9, 9, 9]));
}

#[test]
fn no_viewport_is_the_whole_image() {
    assert_eq!(normalise_viewport(None, 3, 1), Some([0, 0, 2, 0]));
    assert_eq!(normalise_viewport(None, 640, 480), Some([0, 0, 639, 479]));
    assert_eq!(normalise_viewport(None, u32::MAX, u32::MAX), Some([0, 0, u32::MAX - 1, u32::MAX - 1]));
}

#[test]
fn an_image_without_pixels_has_no_bounds() {
    assert_eq!(normalise_viewport(None, 0, 0), None);
    assert_eq!(normalise_viewport(None, 0, 7), None);
    assert_eq!(normalise_viewport(None, 7, 0), None);
}

#[test]
fn a_viewport_without_extent_is_refused() {
    assert_eq!(normalise_viewport(Some([0, 0, 0, 1]), 3, 3), None);
    assert_eq!(normalise_viewport(Some([0, 0, 1, 0]), 3, 3), None);
    assert_eq!(normalise_viewport(Some([1, 1, 0, 0]), 3, 3), None);
}

#[test]
fn a_viewport_outside_the_image_is_refused() {
    assert_eq!(normalise_viewport(Some([0, 0, 4, 1]), 3, 3), None);
    assert_eq!(normalise_viewport(Some([0, 0, 1, 4]), 3, 3), None);
    assert_eq!(normalise_viewport(Some([3, 0, 1, 1]), 3, 3), None);
    assert_eq!(normalise_viewport(Some([2, 2, 2, 1]), 3, 3), None);
    assert_eq!(normalise_viewport(Some([0, 0, 1, 1]), 0, 0), None);
    assert_eq!(normalise_viewport(Some([u32::MAX, 0, u32::MAX, 1]), 3, 3), None);
    assert_eq!(normalise_viewport(Some([1, u32::MAX, 1, u32::MAX]), u32::MAX, u32::MAX), None);
}

#[test]
fn within_takes_both_edges_in() {
    let bounds = [2, 3, 5, 7];
    assert!(is_within_viewport(2, 3, bounds));
    assert!(is_within_viewport(5, 7, bounds));
    assert!(is_within_viewport(2, 7, bounds));
    assert!(is_within_viewport(5, 3, bounds));
    assert!(is_within_viewport(3, 5, bounds));
    assert!(!is_within_viewport(1, 3, bounds));
    assert!(!is_within_viewport(6, 3, bounds));
    assert!(!is_within_viewport(2, 2, bounds));
    assert!(!is_within_viewport(2, 8, bounds));
    assert!(!is_within_viewport(0, 0, bounds));
}

#[test]
fn within_holds_for_a_single_pixel() {
    let bounds = [4, 4, 4, 4];
    assert!(is_within_viewport(4, 4, bounds));
    assert!(!is_within_viewport(3, 4, bounds));
    assert!(!is_within_viewport(4, 5, bounds));
}

#[test]
fn past_looks_at_the_row_alone() {
    let bounds = [2, 3, 5, 7];
    assert!(!is_past_viewport(0, 0, bounds));
    assert!(!is_past_viewport(9, 7, bounds));
    assert!(!is_past_viewport(5, 7, bounds));
    assert!(is_past_viewport(0, 8, bounds));
    assert!(is_past_viewport(5, 8, bounds));
    assert!(is_past_viewport(9, 100, bounds));
}

#[test]
fn nothing_is_within_once_past() {
    let bounds = [1, 1, 3, 2];
    for y in 0..6u32 {
        for x in 0..6u32 {
            if is_past_viewport(x, y, bounds) {
                for later_y in y..6 {
                    let first = if later_y == y { x } else { 0 };
                    for later_x in first..6 {
                        assert!(!is_within_viewport(later_x, later_y, bounds));
                    }
                }
            }
        }
    }
}

#[test]
fn bounds_select_the_rectangle() {
    let rect = [1u32, 2, 3, 2];
    let bounds = normalise_viewport(Some(rect), 6, 6).unwrap();
    for y in 0..6u32 {
        for x in 0..6u32 {
            let selected =
                rect[0] <= x && x < rect[0] + rect[2] && rect[1] <= y && y < rect[1] + rect[3];
            assert_eq!(is_within_viewport(x, y, bounds), selected);
        }
    }
}
