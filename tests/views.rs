use volume_slicer::view::{Axis, View};

#[test]
fn views_map_to_axes() {
    assert_eq!(View::Left.axis(), Axis::Sagittal);
    assert_eq!(View::Right.axis(), Axis::Sagittal);
    assert_eq!(View::Anterior.axis(), Axis::Coronal);
    assert_eq!(View::Posterior.axis(), Axis::Coronal);
    assert_eq!(View::Superior.axis(), Axis::Axial);
    assert_eq!(View::Inferior.axis(), Axis::Axial);
    assert_eq!(Axis::Coronal.index(), 1);
}

#[test]
fn view_names_round_trip() {
    let all = [View::Left, View::Right, View::Anterior, View::Posterior, View::Superior, View::Inferior];
    let names = ["left", "right", "anterior", "posterior", "superior", "inferior"];
    for (v, n) in all.iter().zip(names.iter()) {
        assert_eq!(v.name(), *n);
        assert_eq!(View::from_name(n), Some(*v));
    }
    assert_eq!(View::from_name("Left"), None);
    assert_eq!(View::from_name(""), None);
    assert_eq!(View::from_name("superiors"), None);
}
