use volume_slicer::slicer::{SliceError, Slicer};
use volume_slicer::slicing::{build_indices, IndexWindow};
use volume_slicer::view::{Axis, View};
use volume_slicer::volume::{extract_slice, intensity_bounds, rescale_intensity, Volume};

fn window(min_permille: u32, max_permille: u32) -> IndexWindow {
    IndexWindow { min_permille, max_permille }
}

#[test]
fn single_slice_is_middle_of_axis() {
    assert_eq!(build_indices(10, 1, window(300, 700)), vec![5]);
    assert_eq!(build_indices(11, 1, window(300, 700)), vec![6]);
    assert_eq!(build_indices(100, 1, window(300, 700)), vec![50]);
}

#[test]
fn spread_indices_are_evenly_spaced() {
    assert_eq!(build_indices(100, 3, window(300, 700)), vec![30, 50, 70]);
    let idx = build_indices(181, 3, window(300, 700));
    // min = 54.3, max = 126.7, step = 36.2
    assert_eq!(idx, vec![54, 91, 127]);
    for pair in idx.windows(2) {
        assert!(pair[0] < pair[1]);
    }
}

#[test]
fn oversampled_request_is_reduced_to_unit_step() {
    // min = 3, max = 7: nine slices would be 0.44 voxel apart.
    let idx = build_indices(10, 10, window(300, 700));
    assert_eq!(idx, vec![3, 4, 5, 6]);
    assert!(idx.len() <= 10);
}

#[test]
fn rescale_maps_extremes() {
    assert_eq!(rescale_intensity(-10, -10, 90), 0);
    assert_eq!(rescale_intensity(90, -10, 90), 255);
    assert_eq!(rescale_intensity(40, -10, 90), 127);
    assert_eq!(rescale_intensity(7, 7, 7), 0);
    let mut last = 0;
    for x in -10..=90 {
        let v = rescale_intensity(x, -10, 90);
        assert!(v >= last);
        last = v;
    }
}

#[test]
fn intensity_bounds_of_volume() {
    assert_eq!(intensity_bounds(&vec![3, -2, 9, 4]), (-2, 9));
    assert_eq!(intensity_bounds(&vec![]), (0, 0));
}

fn ramp_volume() -> Volume {
    // 2 x 3 x 4 voxels, each holding its own storage offset.
    Volume { dims: [2, 3, 4], data: (0..24).collect() }
}

#[test]
fn axial_slice_follows_storage_order() {
    let vol = ramp_volume();
    let pixels = extract_slice(&vol, Axis::Axial, 1, 0, 255);
    // Pixel (i, j) of the slice is voxel (i, j, 1) at offset i + 2 * (j + 3).
    assert_eq!(pixels, vec![6, 7, 8, 9, 10, 11]);
}

#[test]
fn sagittal_slice_follows_storage_order() {
    let vol = ramp_volume();
    let pixels = extract_slice(&vol, Axis::Sagittal, 1, 0, 255);
    // Pixel (i, j) is voxel (1, i, j): offset 1 + 2 * (i + 3 * j); 3 wide, 4 high.
    assert_eq!(pixels, vec![1, 3, 5, 7, 9, 11, 13, 15, 17, 19, 21, 23]);
}

#[test]
fn uniform_volume_gives_one_uniform_slice() {
    let vol = Volume { dims: [10, 10, 10], data: vec![128; 1000] };
    let slicer = Slicer::from_3d(&vol, 1, &vec![View::Superior], window(300, 700)).unwrap();
    assert_eq!(slicer.slices.len(), 1);
    let s = &slicer.slices[0];
    assert_eq!(s.index, 5);
    assert_eq!((s.width, s.height), (10, 10));
    assert_eq!(s.pixels.len(), 100);
    assert!(s.pixels.iter().all(|&p| p == s.pixels[0]));
    assert!(matches!(s.view, View::Superior));
}

#[test]
fn slices_follow_views_then_indices() {
    let vol = Volume { dims: [20, 30, 40], data: (0..24000).collect() };
    let views = vec![View::Left, View::Anterior];
    let slicer = Slicer::from_3d(&vol, 2, &views, window(300, 700)).unwrap();
    let got: Vec<(usize, usize, usize)> =
        slicer.slices.iter().map(|s| (s.index, s.width, s.height)).collect();
    assert_eq!(got, vec![(6, 30, 40), (14, 30, 40), (9, 20, 40), (21, 20, 40)]);
    let top = &slicer.slices[1];
    // Largest voxel is 23999: the slice's last pixel, voxel (14, 29, 39), is 23994.
    assert_eq!(top.pixels[top.pixels.len() - 1], (23994i64 * 255 / 23999) as u8);
}

#[test]
fn slicer_errors() {
    let vol = Volume { dims: [10, 10, 10], data: vec![0; 1000] };
    let views = vec![View::Inferior];
    assert_eq!(Slicer::from_3d(&vol, 0, &views, window(300, 700)).err(), Some(SliceError::NoSlices));
    assert_eq!(Slicer::from_3d(&vol, 1, &views, window(700, 300)).err(), Some(SliceError::InvalidWindow));
    assert_eq!(Slicer::from_3d(&vol, 1, &views, window(500, 500)).err(), Some(SliceError::InvalidWindow));
    assert_eq!(Slicer::from_3d(&vol, 1, &views, window(0, 1200)).err(), Some(SliceError::InvalidWindow));
    assert_eq!(
        Slicer::from_3d(&vol, 2, &views, window(0, 1000)).err(),
        Some(SliceError::IndexOutOfVolume)
    );
}

#[test]
fn global_extremes_map_to_black_and_white() {
    // 4 x 4 x 4 ramp: the axial slice at 0 holds the smallest voxel, the one
    // at 3 the largest.
    let vol = Volume { dims: [4, 4, 4], data: (0..64).map(|v| v * 10 - 100).collect() };
    let slicer = Slicer::from_3d(&vol, 4, &vec![View::Superior], window(0, 800)).unwrap();
    let idx: Vec<usize> = slicer.slices.iter().map(|s| s.index).collect();
    assert_eq!(idx, vec![0, 1, 2, 3]);
    assert_eq!(slicer.slices[0].pixels[0], 0);
    assert_eq!(*slicer.slices[3].pixels.last().unwrap(), 255);
    let all: Vec<u8> = slicer.slices.iter().flat_map(|s| s.pixels.iter().copied()).collect();
    assert!(all.windows(2).all(|p| p[0] <= p[1]));
}
