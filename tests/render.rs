use volume_slicer::render::{
    background, depth_stencil, image_size_matches, render_commands, resampling, streamline,
    Background, BindGroupKind, DepthCompare, DrawCommand, Pipeline, Topology,
};

#[test]
fn pass_without_fibers_draws_only_the_quad() {
    assert_eq!(
        render_commands(&vec![]),
        vec![DrawCommand::SetPipeline(Pipeline::Resampling), DrawCommand::DrawQuad]
    );
}

#[test]
fn pass_with_fibers_draws_each_batch() {
    assert_eq!(
        render_commands(&vec![12, 4]),
        vec![
            DrawCommand::SetPipeline(Pipeline::Resampling),
            DrawCommand::DrawQuad,
            DrawCommand::SetPipeline(Pipeline::Streamline),
            DrawCommand::DrawBatch { batch: 0, index_count: 12 },
            DrawCommand::DrawBatch { batch: 1, index_count: 4 },
        ]
    );
}

#[test]
fn pipeline_settings() {
    let r = resampling();
    assert_eq!(r.topology, Topology::TriangleList);
    assert_eq!(r.binding, BindGroupKind::Source);
    assert!(!r.use_depth_test && r.alpha_to_coverage);
    let s = streamline();
    assert_eq!(s.topology, Topology::LineList);
    assert_eq!(s.binding, BindGroupKind::Transform);
    assert!(s.use_depth_test && !s.alpha_to_coverage);
    let on = depth_stencil(true);
    assert!(on.write_enabled);
    assert_eq!(on.compare, DepthCompare::LessEqual);
    let off = depth_stencil(false);
    assert!(!off.write_enabled);
    assert_eq!(off.compare, DepthCompare::Always);
}

#[test]
fn background_and_image_size() {
    assert_eq!(background(true), Background::White);
    assert_eq!(background(false), Background::Black);
    assert!(image_size_matches(100 * 100 * 4, 100, 100));
    assert!(!image_size_matches(512 * 100, 100, 100));
}
