//! Texture configurations and the row layout of bytes that are copied
//! between the device and the host.
use vstd::arithmetic::div_mod::lemma_fundamental_div_mod_converse;
use vstd::prelude::*;

verus! {

/// Texel formats of the textures that the renderer allocates.
#[derive(Clone, Copy, Debug, PartialEq, Eq, Structural)]
pub enum PixelFormat {
    /// One 8-bit gray channel (the sampled source slice).
    Gray8,
    /// Four 8-bit channels (color targets).
    Rgba8,
    /// One 32-bit depth value.
    Depth32,
}

/// Bytes per texel of each format.
pub open spec fn block_size_of(format: PixelFormat) -> nat {
    match format {
        PixelFormat::Gray8 => 1,
        PixelFormat::Rgba8 => 4,
        PixelFormat::Depth32 => 4,
    }
}

/// Row alignment, in bytes, that the device asks of texture-to-buffer copies.
pub open spec fn copy_alignment() -> nat {
    256
}

/// `size` rounded up to the next multiple of `align`.
pub open spec fn padded(size: nat, align: nat) -> nat
    recommends
        align > 0,
{
    (((size + align - 1) as nat) / align) * align
}

/// Relies on wgpu::TextureFormat::block_copy_size: without an aspect,
/// `R8Unorm` copies one byte per texel, `Rgba8Unorm` and `Depth32Float` four.
#[verifier::external_body]
fn block_copy_size(format: PixelFormat) -> (r: Option<u32>)
    ensures
        r == Some(block_size_of(format) as u32),
{
    let format = match format {
        PixelFormat::Gray8 => wgpu::TextureFormat::R8Unorm,
        PixelFormat::Rgba8 => wgpu::TextureFormat::Rgba8Unorm,
        PixelFormat::Depth32 => wgpu::TextureFormat::Depth32Float,
    };
    format.block_copy_size(None)
}

/// Relies on wgpu::COPY_BYTES_PER_ROW_ALIGNMENT, which is 256.
#[verifier::external_body]
fn copy_row_alignment() -> (r: u32)
    ensures
        r as nat == copy_alignment(),
{
    wgpu::COPY_BYTES_PER_ROW_ALIGNMENT
}

/// Rounds `size` up to the next multiple of `align`.
pub fn pad_size(size: u32, align: u32) -> (r: u32)
    requires
        align > 0,
        size + align - 1 <= u32::MAX,
    ensures
        r as nat == padded(size as nat, align as nat),
        r >= size,
        r < size + align,
        r % align == 0,
{
    let blocks: u32 = (size + (align - 1)) / align;
    proof {
        let n = size + align - 1;
        assert(blocks * align <= n) by (nonlinear_arith)
            requires blocks == n / align as int, align > 0;
        assert(blocks * align > n - align) by (nonlinear_arith)
            requires blocks == n / align as int, align > 0;
        assert((blocks * align) % align as int == 0) by (nonlinear_arith)
            requires align > 0, blocks >= 0;
    }
    blocks * align
}

/// Bytes of one row as it is laid out in a buffer: the stride from one row to
/// the next, and how many of those bytes are padding after the texels.
#[derive(Clone, Copy, Debug, PartialEq, Eq, Structural)]
pub struct RowLayout {
    pub stride: u32,
    pub padding: u32,
}

/// What one texture of the renderer is made of, before the device allocates it.
#[derive(Clone, Copy, Debug, PartialEq, Eq, Structural)]
pub struct TextureConfig {
    pub format: PixelFormat,
    pub usage: TextureUsage,
    pub width: u32,
    pub height: u32,
    /// Whether the texture takes the device's multisample count.
    pub multisampled: bool,
    /// Whether each row is padded to the copy alignment, as a texture that is
    /// later copied into a buffer must be.
    pub pad_bytes_per_row: bool,
}

/// Row layout of a texture of `format`, `width` texels wide: unpadded, or
/// padded to the copy alignment.
pub open spec fn row_layout(format: PixelFormat, width: nat, pad: bool) -> (nat, nat) {
    let bytes = block_size_of(format) * width;
    if pad {
        (padded(bytes, copy_alignment()), (padded(bytes, copy_alignment()) - bytes) as nat)
    } else {
        (bytes, 0)
    }
}

/// Number of bytes per row and the padding at its end.
pub fn bytes_layout(cfg: &TextureConfig) -> (r: RowLayout)
    requires
        block_size_of(cfg.format) * cfg.width + (if cfg.pad_bytes_per_row { 255int } else { 0int }) <= u32::MAX,
    ensures
        (r.stride as nat, r.padding as nat) == row_layout(cfg.format, cfg.width as nat, cfg.pad_bytes_per_row),
        r.stride == r.padding + block_size_of(cfg.format) * cfg.width,
{
    let block_size = block_copy_size(cfg.format).unwrap();
    let width: u32 = block_size * cfg.width;
    if cfg.pad_bytes_per_row {
        let align = copy_row_alignment();
        let stride = pad_size(width, align);
        RowLayout { stride, padding: stride - width }
    } else {
        RowLayout { stride: width, padding: 0 }
    }
}

/// Which operations the device allows on a texture.
#[derive(Clone, Copy, Debug, PartialEq, Eq, Structural)]
pub struct TextureUsage {
    pub copy_src: bool,
    pub copy_dst: bool,
    pub texture_binding: bool,
    pub render_attachment: bool,
}

/// Number of samples per texel that the device allocates for `cfg`.
pub fn sample_count(cfg: &TextureConfig, max_samples: u32) -> (r: u32)
    ensures
        r == if cfg.multisampled { max_samples } else { 1 },
{
    if cfg.multisampled {
        max_samples
    } else {
        1
    }
}

/// Size in bytes of the host-readable buffer that receives a texture with
/// row layout `layout` and `height` rows.
pub fn transfer_buffer_size(layout: RowLayout, height: u32) -> (r: u64)
    ensures
        r == layout.stride as nat * height as nat,
{
    proof {
        let (s, h) = (layout.stride as int, height as int);
        assert(s * h <= 0xffff_ffff * 0xffff_ffff) by (nonlinear_arith)
            requires 0 <= s <= 0xffff_ffff, 0 <= h <= 0xffff_ffff;
    }
    layout.stride as u64 * height as u64
}

/// The texels of each row of `buf`, whose rows are `stride` bytes apart and
/// hold `row` bytes of texels each, one row after the other.
pub open spec fn stripped(buf: Seq<u8>, stride: nat, row: nat) -> Seq<u8>
    recommends
        stride > 0,
        row > 0,
{
    Seq::new((buf.len() / stride) * row, |k: int| buf[(k / row as int) * stride + k % row as int])
}

/// Copies the texels out of a buffer whose rows are padded to `stride`
/// bytes, dropping the padding at the end of each row.
pub fn strip_row_padding(buf: &[u8], stride: usize, row: usize) -> (r: Vec<u8>)
    requires
        0 < row <= stride,
        buf@.len() as int % stride as int == 0,
    ensures
        r@ == stripped(buf@, stride as nat, row as nat),
        r@.len() == (buf@.len() as int / stride as int) * row,
{
    let len: usize = buf.len();
    let rows: usize = len / stride;
    let ghost expected = stripped(buf@, stride as nat, row as nat);
    let mut out: Vec<u8> = Vec::new();
    let mut j: usize = 0;
    proof {
        assert(rows * stride == buf@.len()) by (nonlinear_arith)
            requires rows == buf@.len() as int / stride as int, buf@.len() as int % stride as int == 0, stride > 0;
    }
    while j < rows
        invariant
            rows * stride == buf@.len(),
            len == buf@.len(),
            0 < row <= stride,
            j <= rows,
            rows == buf@.len() as int / stride as int,
            expected == stripped(buf@, stride as nat, row as nat),
            out@ =~= expected.subrange(0, j * row),
        decreases rows - j,
    {
        let mut i: usize = 0;
        proof {
            assert(j * row + row <= rows * row) by (nonlinear_arith) requires j < rows;
            assert(expected.len() == rows * row);
        }
        while i < row
            invariant
                rows * stride == buf@.len(),
                len == buf@.len(),
            len == buf@.len(),
                0 < row <= stride,
                j < rows,
                i <= row,
                rows == buf@.len() as int / stride as int,
                expected == stripped(buf@, stride as nat, row as nat),
                expected.len() == rows * row,
                j * row + row <= rows * row,
                out@ =~= expected.subrange(0, j * row + i),
            decreases row - i,
        {
            proof {
                assert(j * stride + i < rows * stride) by (nonlinear_arith)
                    requires j < rows, i < row, row <= stride;
                let k = j * row + i;
                lemma_fundamental_div_mod_converse(k, row as int, j as int, i as int);
            }
            out.push(buf[j * stride + i]);
            i += 1;
        }
        proof {
            assert((j + 1) * row == j * row + row) by (nonlinear_arith);
        }
        j += 1;
    }
    proof {
        assert(out@ =~= expected);
    }
    out
}

proof fn lemma_padded_bounds(size: nat, align: nat)
    requires
        align > 0,
    ensures
        size <= padded(size, align) < size + align,
{
    let n = (size + align - 1) as nat;
    let q = n / align;
    vstd::arithmetic::div_mod::lemma_fundamental_div_mod(n as int, align as int);
    vstd::arithmetic::div_mod::lemma_mod_pos_bound(n as int, align as int);
    assert(q * align == align * q) by (nonlinear_arith);
}

/// Copying a `width` x `height` RGBA texture into a buffer whose rows are
/// padded to any alignment, then dropping the padding, gives exactly
/// `width * height * 4` bytes, whether or not the rows needed padding.
pub proof fn lemma_readback_exact_size(buf: Seq<u8>, width: nat, height: nat, align: nat)
    requires
        align > 0,
        buf.len() == padded(4 * width, align) * height,
    ensures
        stripped(buf, padded(4 * width, align), 4 * width).len() == width * height * 4,
{
    let stride = padded(4 * width, align);
    lemma_padded_bounds(4 * width, align);
    if width > 0 {
        vstd::arithmetic::div_mod::lemma_div_multiples_vanish(height as int, stride as int);
        assert(stride * height == height * stride) by (nonlinear_arith);
        assert(height * (4 * width) == width * height * 4) by (nonlinear_arith);
    } else {
        assert(stride == 0) by {
            vstd::arithmetic::div_mod::lemma_basic_div((align - 1) as int, align as int);
        }
    }
}

/// The layout of the renderer's color target: its buffer rows are padded to
/// the device's copy alignment, and dropping that padding from a buffer of
/// `height` rows leaves exactly `width * height * 4` bytes.
pub proof fn lemma_target_readback_size(buf: Seq<u8>, width: nat, height: nat)
    requires
        buf.len() == row_layout(PixelFormat::Rgba8, width, true).0 * height,
    ensures
        row_layout(PixelFormat::Rgba8, width, true).0 % copy_alignment() == 0,
        stripped(buf, row_layout(PixelFormat::Rgba8, width, true).0, 4 * width).len() == width * height * 4,
{
    lemma_readback_exact_size(buf, width, height, copy_alignment());
    let n = (4 * width + 255) as nat;
    vstd::arithmetic::div_mod::lemma_mod_multiples_basic((n / 256) as int, 256);
}

/// The gray texture that a slice of `width` x `height` pixels is uploaded to
/// and sampled from.
pub fn source_config(width: u32, height: u32) -> (r: TextureConfig)
    ensures
        r == (TextureConfig {
            format: PixelFormat::Gray8,
            usage: TextureUsage { copy_src: false, copy_dst: true, texture_binding: true, render_attachment: false },
            width,
            height,
            multisampled: false,
            pad_bytes_per_row: false,
        }),
{
    TextureConfig {
        format: PixelFormat::Gray8,
        usage: TextureUsage { copy_src: false, copy_dst: true, texture_binding: true, render_attachment: false },
        width,
        height,
        multisampled: false,
        pad_bytes_per_row: false,
    }
}

/// The multisampled color target that the render pass draws into.
pub fn multisampled_config(width: u32, height: u32) -> (r: TextureConfig)
    ensures
        r == (TextureConfig {
            format: PixelFormat::Rgba8,
            usage: TextureUsage { copy_src: false, copy_dst: false, texture_binding: false, render_attachment: true },
            width,
            height,
            multisampled: true,
            pad_bytes_per_row: false,
        }),
{
    TextureConfig {
        format: PixelFormat::Rgba8,
        usage: TextureUsage { copy_src: false, copy_dst: false, texture_binding: false, render_attachment: true },
        width,
        height,
        multisampled: true,
        pad_bytes_per_row: false,
    }
}

/// The multisampled depth buffer of the streamline pipeline.
pub fn depth_config(width: u32, height: u32) -> (r: TextureConfig)
    ensures
        r == (TextureConfig {
            format: PixelFormat::Depth32,
            usage: TextureUsage { copy_src: false, copy_dst: false, texture_binding: false, render_attachment: true },
            width,
            height,
            multisampled: true,
            pad_bytes_per_row: false,
        }),
{
    TextureConfig {
        format: PixelFormat::Depth32,
        usage: TextureUsage { copy_src: false, copy_dst: false, texture_binding: false, render_attachment: true },
        width,
        height,
        multisampled: true,
        pad_bytes_per_row: false,
    }
}

/// The single-sampled target that the pass resolves into and that is then
/// copied, rows padded, into the host-readable buffer.
pub fn target_config(width: u32, height: u32) -> (r: TextureConfig)
    ensures
        r == (TextureConfig {
            format: PixelFormat::Rgba8,
            usage: TextureUsage { copy_src: true, copy_dst: false, texture_binding: false, render_attachment: true },
            width,
            height,
            multisampled: false,
            pad_bytes_per_row: true,
        }),
{
    TextureConfig {
        format: PixelFormat::Rgba8,
        usage: TextureUsage { copy_src: true, copy_dst: false, texture_binding: false, render_attachment: true },
        width,
        height,
        multisampled: false,
        pad_bytes_per_row: true,
    }
}

/// Dropping the padding keeps every texel byte of every row, in order:
/// byte `c` of row `r` lands at `r * row + c`.
pub proof fn lemma_stripped_keeps_texels(buf: Seq<u8>, stride: nat, row: nat, r: int, c: int)
    requires
        0 < row <= stride,
        buf.len() % stride == 0,
        0 <= r < buf.len() as int / stride as int,
        0 <= c < row,
    ensures
        r * row + c < stripped(buf, stride, row).len(),
        stripped(buf, stride, row)[r * row + c] == buf[r * stride + c],
{
    let h = buf.len() as int / stride as int;
    assert(r * row + c < h * row) by (nonlinear_arith) requires r < h, c < row, r >= 0, c >= 0;
    lemma_fundamental_div_mod_converse(r * row + c, row as int, r, c);
}

} // verus!
