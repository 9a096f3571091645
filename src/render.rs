//! What the renderer records for each slice: the two pipelines it draws
//! with, and the commands of one render pass.
use vstd::prelude::*;

verus! {

/// How a pipeline assembles its vertices.
#[derive(Clone, Copy, Debug, PartialEq, Eq, Structural)]
pub enum Topology {
    /// Triangles, filled, clockwise front faces.
    TriangleList,
    /// Independent line segments.
    LineList,
}

/// How fragments are compared with the depth buffer.
#[derive(Clone, Copy, Debug, PartialEq, Eq, Structural)]
pub enum DepthCompare {
    LessEqual,
    Always,
}

/// What a pipeline reads through its single bind group.
#[derive(Clone, Copy, Debug, PartialEq, Eq, Hash, Structural)]
pub enum BindGroupKind {
    /// The slice's texture and its sampler.
    Source,
    /// The uniform transform of the streamline geometry.
    Transform,
}

/// The two pipelines of the renderer.
#[derive(Clone, Copy, Debug, PartialEq, Eq, Structural)]
pub enum Pipeline {
    /// Draws the slice as a textured quad.
    Resampling,
    /// Draws streamlines as depth-tested lines.
    Streamline,
}

/// The depth-buffer state of a pipeline.
#[derive(Clone, Copy, Debug, PartialEq, Eq, Structural)]
pub struct DepthState {
    pub write_enabled: bool,
    pub compare: DepthCompare,
}

/// The fixed settings a pipeline is built with.
#[derive(Clone, Copy, Debug, PartialEq, Eq, Structural)]
pub struct PipelineState {
    pub pipeline: Pipeline,
    pub binding: BindGroupKind,
    pub topology: Topology,
    pub use_depth_test: bool,
    pub alpha_to_coverage: bool,
}

/// Depth writes and comparisons on for a depth-tested pipeline; otherwise
/// every fragment passes and none is written.
pub fn depth_stencil(active: bool) -> (r: DepthState)
    ensures
        r.write_enabled == active,
        r.compare == if active { DepthCompare::LessEqual } else { DepthCompare::Always },
{
    DepthState {
        write_enabled: active,
        compare: if active { DepthCompare::LessEqual } else { DepthCompare::Always },
    }
}

/// Settings of the pipeline that draws the slice: textured triangles,
/// no depth test, antialiased edges.
pub fn resampling() -> (r: PipelineState)
    ensures
        r == (PipelineState {
            pipeline: Pipeline::Resampling,
            binding: BindGroupKind::Source,
            topology: Topology::TriangleList,
            use_depth_test: false,
            alpha_to_coverage: true,
        }),
{
    PipelineState {
        pipeline: Pipeline::Resampling,
        binding: BindGroupKind::Source,
        topology: Topology::TriangleList,
        use_depth_test: false,
        alpha_to_coverage: true,
    }
}

/// Settings of the pipeline that draws streamlines: depth-tested lines.
pub fn streamline() -> (r: PipelineState)
    ensures
        r == (PipelineState {
            pipeline: Pipeline::Streamline,
            binding: BindGroupKind::Transform,
            topology: Topology::LineList,
            use_depth_test: true,
            alpha_to_coverage: false,
        }),
{
    PipelineState {
        pipeline: Pipeline::Streamline,
        binding: BindGroupKind::Transform,
        topology: Topology::LineList,
        use_depth_test: true,
        alpha_to_coverage: false,
    }
}

/// Color the render pass clears to.
#[derive(Clone, Copy, Debug, PartialEq, Eq, Structural)]
pub enum Background {
    Black,
    White,
}

/// The background of the images.
pub fn background(white_mode: bool) -> (r: Background)
    ensures
        r == if white_mode { Background::White } else { Background::Black },
{
    if white_mode {
        Background::White
    } else {
        Background::Black
    }
}

/// One step of a render pass.
#[derive(Clone, Copy, Debug, PartialEq, Eq, Structural)]
pub enum DrawCommand {
    /// Binds a pipeline and the bind group it reads.
    SetPipeline(Pipeline),
    /// Draws the six vertices of the slice's quad.
    DrawQuad,
    /// Binds the buffers of fiber batch `batch` and draws its `index_count` indices.
    DrawBatch { batch: usize, index_count: u32 },
}

/// One indexed draw per fiber batch, in order.
pub open spec fn batch_draws(index_counts: Seq<u32>) -> Seq<DrawCommand> {
    Seq::new(index_counts.len(), |i: int| DrawCommand::DrawBatch { batch: i as usize, index_count: index_counts[i] })
}

/// The pass of one slice: the quad first; then, where there is fiber
/// geometry, the streamline pipeline and one draw per batch.
pub open spec fn pass_commands(index_counts: Seq<u32>) -> Seq<DrawCommand> {
    let quad = seq![DrawCommand::SetPipeline(Pipeline::Resampling), DrawCommand::DrawQuad];
    if index_counts.len() == 0 {
        quad
    } else {
        quad + seq![DrawCommand::SetPipeline(Pipeline::Streamline)] + batch_draws(index_counts)
    }
}

/// The commands of the render pass of one slice, given the index count of
/// each fiber batch.
pub fn render_commands(index_counts: &Vec<u32>) -> (r: Vec<DrawCommand>)
    ensures
        r@ == pass_commands(index_counts@),
{
    let mut out: Vec<DrawCommand> = Vec::new();
    out.push(DrawCommand::SetPipeline(Pipeline::Resampling));
    out.push(DrawCommand::DrawQuad);
    if index_counts.len() == 0 {
        assert(out@ =~= pass_commands(index_counts@));
        return out;
    }
    out.push(DrawCommand::SetPipeline(Pipeline::Streamline));
    let ghost head = out@;
    let mut i: usize = 0;
    while i < index_counts.len()
        invariant
            i <= index_counts@.len(),
            head == seq![DrawCommand::SetPipeline(Pipeline::Resampling), DrawCommand::DrawQuad,
                DrawCommand::SetPipeline(Pipeline::Streamline)],
            out@ =~= head + batch_draws(index_counts@.subrange(0, i as int)),
        decreases index_counts@.len() - i,
    {
        out.push(DrawCommand::DrawBatch { batch: i, index_count: index_counts[i] });
        proof {
            assert(batch_draws(index_counts@.subrange(0, i as int + 1))
                =~= batch_draws(index_counts@.subrange(0, i as int)).push(
                    DrawCommand::DrawBatch { batch: i, index_count: index_counts@[i as int] }));
        }
        i += 1;
    }
    assert(index_counts@.subrange(0, i as int) =~= index_counts@);
    assert(out@ =~= pass_commands(index_counts@));
    out
}

/// Whether the bytes read back hold exactly one RGBA texel per pixel of a
/// `width` x `height` image.
pub fn image_size_matches(len: usize, width: u32, height: u32) -> (r: bool)
    ensures
        r == (len as int == width as int * height as int * 4),
{
    let w: u128 = width as u128;
    let h: u128 = height as u128;
    proof {
        assert(w * h <= 0xffff_ffff * 0xffff_ffff) by (nonlinear_arith)
            requires w <= 0xffff_ffff, h <= 0xffff_ffff;
    }
    len as u128 == w * h * 4
}

} // verus!
