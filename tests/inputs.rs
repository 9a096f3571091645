use volume_slicer::inputs::{coloring_of, dims_3d, get_dim, Args, Coloring, ColoringInput, ConfigError, ContextInputs};
use volume_slicer::view::View;

fn args(coloring: ColoringInput, rgb: Vec<u32>, output_size: Vec<u32>) -> Args {
    Args {
        input_image: "image.nii.gz".to_string(),
        white: true,
        fibers: None,
        batch_size: 1000,
        coloring,
        rgb,
        output: "out".to_string(),
        output_size,
        views: vec![View::Superior],
    }
}

#[test]
fn coloring_needs_rgb_when_uniform() {
    assert_eq!(coloring_of(ColoringInput::Local, &vec![]), Ok(Coloring::Local));
    assert_eq!(coloring_of(ColoringInput::Endpoint, &vec![]), Ok(Coloring::Endpoint));
    assert_eq!(coloring_of(ColoringInput::Uniform, &vec![255, 0, 10]), Ok(Coloring::Uniform(255, 0, 10)));
    assert_eq!(coloring_of(ColoringInput::Uniform, &vec![255, 0]), Err(ConfigError::MissingRgb));
}

#[test]
fn volume_must_be_three_dimensional() {
    assert_eq!(dims_3d(&vec![10, 20, 30]), Ok([10, 20, 30]));
    assert_eq!(dims_3d(&vec![10, 20, 30, 2]), Err(ConfigError::NotThreeDimensional));
}

#[test]
fn header_dimensions() {
    let header = nifti::NiftiHeader::default();
    assert_eq!(get_dim(&header.dim), Err(ConfigError::InconsistentDims));
    assert_eq!(get_dim(&[3, 10, 20, 30, 1, 1, 1, 1]), Ok([10, 20, 30]));
    assert_eq!(get_dim(&[3, 10, 0, 30, 1, 1, 1, 1]), Err(ConfigError::InconsistentDims));
    assert_eq!(get_dim(&[0, 10, 20, 30, 1, 1, 1, 1]), Err(ConfigError::InconsistentDims));
    assert_eq!(get_dim(&[8, 1, 1, 1, 1, 1, 1, 1]), Err(ConfigError::InconsistentDims));
    assert_eq!(get_dim(&[2, 10, 20, 0, 0, 0, 0, 0]), Err(ConfigError::NotThreeDimensional));
    assert_eq!(get_dim(&[4, 10, 20, 30, 2, 0, 0, 0]), Err(ConfigError::NotThreeDimensional));
}

#[test]
fn context_inputs_from_settings() {
    let c = ContextInputs::from_size(&args(ColoringInput::Uniform, vec![1, 2, 3], vec![800, 600]), [10, 20, 30]).unwrap();
    assert_eq!(c.dst_img_size, [800, 600]);
    assert_eq!(c.size_3d, [10, 20, 30]);
    assert_eq!(c.coloring, Coloring::Uniform(1, 2, 3));
    assert_eq!(c.streamline_batch_size, 1000);
    assert!(c.white_mode);
    let e = ContextInputs::from_size(&args(ColoringInput::Local, vec![], vec![800]), [10, 20, 30]);
    assert_eq!(e.err(), Some(ConfigError::BadOutputSize));
    let mut header = nifti::NiftiHeader::default();
    header.dim = [3, 4, 5, 6, 1, 1, 1, 1];
    let c = ContextInputs::new(&args(ColoringInput::Local, vec![], vec![64, 48]), &header.dim).unwrap();
    assert_eq!(c.size_3d, [4, 5, 6]);
    let e = ContextInputs::new(&args(ColoringInput::Local, vec![], vec![64, 48]), &[2, 4, 5, 1, 1, 1, 1, 1]);
    assert_eq!(e.err(), Some(ConfigError::NotThreeDimensional));
    let e = ContextInputs::new(&args(ColoringInput::Uniform, vec![], vec![64, 48]), &header.dim);
    assert_eq!(e.err(), Some(ConfigError::MissingRgb));
}
