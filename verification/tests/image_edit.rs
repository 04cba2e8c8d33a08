use content_aware_resize::{decompose, Dimensions, Image, Path, ResizeError};

fn numbered(width: u32, height: u32) -> Image {
    let n = (width * height * 3) as usize;
    let pixels: Vec<u8> = (0..n).map(|i| i as u8).collect();
    Image::from_raw(width, height, pixels).unwrap()
}

fn seam(indices: Vec<usize>) -> Path {
    Path { indices, score: 0 }
}

#[test]
fn image_wraps_a_buffer_of_the_right_length() {
    let img = Image::from_raw(2, 3, (0..18).collect()).unwrap();
    assert_eq!(img.dimmensions(), (2, 3));
    assert_eq!(img.get_image_data(), (0..18).collect::<Vec<u8>>().as_slice());
}

#[test]
fn image_refuses_any_other_length() {
    assert!(Image::from_raw(2, 3, vec![0; 17]).is_none());
    assert!(Image::from_raw(2, 3, vec![0; 19]).is_none());
    assert!(Image::from_raw(2, 3, vec![0; 6]).is_none());
    assert!(Image::from_raw(u32::MAX, u32::MAX, vec![0; 3]).is_none());
    assert!(Image::from_raw(0, 0, Vec::new()).is_some());
    assert!(Image::from_raw(7, 0, Vec::new()).is_some());
}

#[test]
fn size_difference_is_the_request() {
    let img = numbered(2, 2);
    assert_eq!(img.size_difference(Dimensions::Relative(-3, 4)), (-3, 4));
    assert_eq!(img.size_difference(Dimensions::Relative(0, 0)), (0, 0));
}

#[test]
fn decompose_splits_the_channels() {
    let img = numbered(3, 2);
    let (red, green, blue) = decompose(&img);
    assert_eq!(red, vec![0, 3, 6, 9, 12, 15]);
    assert_eq!(green, vec![1, 4, 7, 10, 13, 16]);
    assert_eq!(blue, vec![2, 5, 8, 11, 14, 17]);
}

#[test]
fn decompose_of_an_empty_image_is_empty() {
    let img = Image::from_raw(0, 4, Vec::new()).unwrap();
    let (red, green, blue) = decompose(&img);
    assert!(red.is_empty() && green.is_empty() && blue.is_empty());
}

#[test]
fn removing_a_seam_shifts_the_rest_left() {
    let mut img = numbered(3, 2);
    assert_eq!(img.remove_path(seam(vec![1, 2])), Ok(()));
    assert_eq!(img.dimmensions(), (2, 2));
    assert_eq!(
        img.get_image_data(),
        vec![0u8, 1, 2, 6, 7, 8, 9, 10, 11, 12, 13, 14].as_slice()
    );
}

#[test]
fn removing_the_first_and_the_last_column() {
    let mut img = numbered(3, 2);
    assert_eq!(img.remove_path(seam(vec![0, 0])), Ok(()));
    assert_eq!(
        img.get_image_data(),
        vec![3u8, 4, 5, 6, 7, 8, 12, 13, 14, 15, 16, 17].as_slice()
    );
    let mut img = numbered(3, 2);
    assert_eq!(img.remove_path(seam(vec![2, 2])), Ok(()));
    assert_eq!(
        img.get_image_data(),
        vec![0u8, 1, 2, 3, 4, 5, 9, 10, 11, 12, 13, 14].as_slice()
    );
}

#[test]
fn removing_a_seam_that_jumps_is_allowed() {
    let mut img = numbered(4, 2);
    assert_eq!(img.remove_path(seam(vec![0, 3])), Ok(()));
    assert_eq!(img.dimmensions(), (3, 2));
    assert_eq!(
        img.get_image_data(),
        vec![3u8, 4, 5, 6, 7, 8, 9, 10, 11, 12, 13, 14, 15, 16, 17, 18, 19, 20].as_slice()
    );
}

#[test]
fn removing_the_only_column_leaves_no_pixels() {
    let mut img = numbered(1, 3);
    assert_eq!(img.remove_path(seam(vec![0, 0, 0])), Ok(()));
    assert_eq!(img.dimmensions(), (0, 3));
    assert!(img.get_image_data().is_empty());
}

#[test]
fn seam_of_the_wrong_length_is_refused() {
    let mut img = numbered(3, 2);
    let before = img.get_image_data().to_vec();
    assert_eq!(img.remove_path(seam(vec![1])), Err(ResizeError::SeamOutOfBounds));
    assert_eq!(img.remove_path(seam(vec![1, 1, 1])), Err(ResizeError::SeamOutOfBounds));
    assert_eq!(img.remove_path(seam(Vec::new())), Err(ResizeError::SeamOutOfBounds));
    assert_eq!(img.dimmensions(), (3, 2));
    assert_eq!(img.get_image_data(), before.as_slice());
}

#[test]
fn seam_with_a_column_outside_is_refused() {
    let mut img = numbered(3, 2);
    let before = img.get_image_data().to_vec();
    assert_eq!(img.remove_path(seam(vec![1, 3])), Err(ResizeError::SeamOutOfBounds));
    assert_eq!(img.remove_path(seam(vec![usize::MAX, 0])), Err(ResizeError::SeamOutOfBounds));
    assert_eq!(img.dimmensions(), (3, 2));
    assert_eq!(img.get_image_data(), before.as_slice());
}

#[test]
fn image_without_columns_has_nothing_to_remove() {
    let mut img = Image::from_raw(0, 0, Vec::new()).unwrap();
    assert_eq!(img.remove_path(seam(Vec::new())), Err(ResizeError::TooNarrow));
    let mut img = Image::from_raw(0, 2, Vec::new()).unwrap();
    assert_eq!(img.remove_path(seam(vec![0, 0])), Err(ResizeError::SeamOutOfBounds));
    assert_eq!(img.dimmensions(), (0, 2));
}

#[test]
fn resize_by_nothing_changes_nothing() {
    let mut img = numbered(4, 3);
    let before = img.get_image_data().to_vec();
    assert_eq!(img.resize_to(Dimensions::Relative(0, 0)), Ok(()));
    assert_eq!(img.dimmensions(), (4, 3));
    assert_eq!(img.get_image_data(), before.as_slice());
}

#[test]
fn resize_by_nothing_is_served_on_degenerate_images() {
    for (w, h) in [(0u32, 0u32), (1, 1), (1, 5), (5, 0), (0, 5)] {
        let mut img = numbered(w, h);
        assert_eq!(img.resize_to(Dimensions::Relative(0, 0)), Ok(()));
        assert_eq!(img.dimmensions(), (w, h));
    }
}

#[test]
fn growth_is_refused_and_nothing_changes() {
    let mut img = numbered(4, 3);
    let before = img.get_image_data().to_vec();
    assert_eq!(img.resize_to(Dimensions::Relative(1, 0)), Err(ResizeError::OnlyDownsizing));
    assert_eq!(img.resize_to(Dimensions::Relative(5, 0)), Err(ResizeError::OnlyDownsizing));
    assert_eq!(
        img.resize_to(Dimensions::Relative(isize::MAX, 0)),
        Err(ResizeError::OnlyDownsizing)
    );
    assert_eq!(img.dimmensions(), (4, 3));
    assert_eq!(img.get_image_data(), before.as_slice());
}

#[test]
fn growth_is_reported_before_a_change_of_height() {
    let mut img = numbered(4, 3);
    assert_eq!(img.resize_to(Dimensions::Relative(1, 1)), Err(ResizeError::OnlyDownsizing));
    assert_eq!(img.resize_to(Dimensions::Relative(2, -1)), Err(ResizeError::OnlyDownsizing));
}

#[test]
fn change_of_height_is_refused_and_nothing_changes() {
    let mut img = numbered(4, 3);
    let before = img.get_image_data().to_vec();
    assert_eq!(img.resize_to(Dimensions::Relative(0, 1)), Err(ResizeError::OnlyHorizontal));
    assert_eq!(img.resize_to(Dimensions::Relative(0, -1)), Err(ResizeError::OnlyHorizontal));
    assert_eq!(img.resize_to(Dimensions::Relative(-1, -1)), Err(ResizeError::OnlyHorizontal));
    assert_eq!(img.dimmensions(), (4, 3));
    assert_eq!(img.get_image_data(), before.as_slice());
}

#[test]
fn shrinking_to_nothing_is_refused_and_nothing_changes() {
    let mut img = numbered(4, 3);
    let before = img.get_image_data().to_vec();
    assert_eq!(img.resize_to(Dimensions::Relative(-4, 0)), Err(ResizeError::TooNarrow));
    assert_eq!(img.resize_to(Dimensions::Relative(-5, 0)), Err(ResizeError::TooNarrow));
    assert_eq!(
        img.resize_to(Dimensions::Relative(isize::MIN, 0)),
        Err(ResizeError::TooNarrow)
    );
    assert_eq!(img.dimmensions(), (4, 3));
    assert_eq!(img.get_image_data(), before.as_slice());
}

#[test]
fn image_too_narrow_for_a_seam_is_refused() {
    let mut img = numbered(1, 3);
    assert_eq!(img.resize_to(Dimensions::Relative(-1, 0)), Err(ResizeError::TooNarrow));
    assert_eq!(img.dimmensions(), (1, 3));
    let mut img = numbered(0, 3);
    assert_eq!(img.resize_to(Dimensions::Relative(-1, 0)), Err(ResizeError::TooNarrow));
}

#[test]
fn image_without_rows_is_refused() {
    let mut img = numbered(5, 0);
    assert_eq!(img.resize_to(Dimensions::Relative(-1, 0)), Err(ResizeError::TooNarrow));
    assert_eq!(img.dimmensions(), (5, 0));
}

#[test]
fn shrinking_by_one_narrows_by_one() {
    for w in 2u32..7 {
        for h in 1u32..5 {
            let mut img = numbered(w, h);
            assert_eq!(img.resize_to(Dimensions::Relative(-1, 0)), Ok(()));
            assert_eq!(img.dimmensions(), (w - 1, h));
            assert_eq!(img.get_image_data().len(), ((w - 1) * h * 3) as usize);
        }
    }
}

#[test]
fn shrinking_down_to_one_column() {
    let mut img = numbered(5, 4);
    assert_eq!(img.resize_to(Dimensions::Relative(-4, 0)), Ok(()));
    assert_eq!(img.dimmensions(), (1, 4));
    assert_eq!(img.get_image_data().len(), 12);
}

#[test]
fn shrinking_in_steps_is_shrinking_at_once() {
    let mut at_once = numbered(7, 5);
    let mut in_steps = numbered(7, 5);
    assert_eq!(at_once.resize_to(Dimensions::Relative(-3, 0)), Ok(()));
    for _ in 0..3 {
        assert_eq!(in_steps.resize_to(Dimensions::Relative(-1, 0)), Ok(()));
    }
    assert_eq!(at_once.dimmensions(), (4, 5));
    assert_eq!(at_once.get_image_data(), in_steps.get_image_data());
}
