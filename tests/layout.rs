use volume_slicer::layout::{
    bytes_layout, depth_config, multisampled_config, pad_size, sample_count, source_config,
    strip_row_padding, target_config, transfer_buffer_size, PixelFormat, RowLayout, TextureConfig,
    TextureUsage,
};

const NO_USAGE: TextureUsage =
    TextureUsage { copy_src: false, copy_dst: false, texture_binding: false, render_attachment: false };

fn config(format: PixelFormat, width: u32, pad: bool) -> TextureConfig {
    TextureConfig { format, usage: NO_USAGE, width, height: 3, multisampled: false, pad_bytes_per_row: pad }
}

#[test]
fn pad_size_rounds_up() {
    assert_eq!(pad_size(400, 256), 512);
    assert_eq!(pad_size(256, 256), 256);
    assert_eq!(pad_size(0, 256), 0);
    assert_eq!(pad_size(1, 4), 4);
}

#[test]
fn row_layout_of_formats() {
    assert_eq!(bytes_layout(&config(PixelFormat::Gray8, 100, false)), RowLayout { stride: 100, padding: 0 });
    assert_eq!(bytes_layout(&config(PixelFormat::Rgba8, 100, false)), RowLayout { stride: 400, padding: 0 });
    assert_eq!(bytes_layout(&config(PixelFormat::Depth32, 10, false)), RowLayout { stride: 40, padding: 0 });
    assert_eq!(bytes_layout(&config(PixelFormat::Rgba8, 100, true)), RowLayout { stride: 512, padding: 112 });
    assert_eq!(bytes_layout(&config(PixelFormat::Rgba8, 64, true)), RowLayout { stride: 256, padding: 0 });
}

#[test]
fn samples_per_texel() {
    let mut cfg = config(PixelFormat::Rgba8, 10, false);
    assert_eq!(sample_count(&cfg, 4), 1);
    cfg.multisampled = true;
    assert_eq!(sample_count(&cfg, 4), 4);
}

fn readback(width: u32, height: u32) -> Vec<u8> {
    let layout = bytes_layout(&target_config(width, height));
    let size = transfer_buffer_size(layout, height) as usize;
    let buf: Vec<u8> = (0..size).map(|k| if k % layout.stride as usize >= (width * 4) as usize { 0xEE } else { (k % 200) as u8 }).collect();
    strip_row_padding(&buf, layout.stride as usize, (layout.stride - layout.padding) as usize)
}

#[test]
fn readback_size_independent_of_padding() {
    let padded = readback(100, 7);
    assert_eq!(padded.len(), 100 * 7 * 4);
    assert!(padded.iter().all(|&b| b != 0xEE));
    let aligned = readback(64, 5);
    assert_eq!(aligned.len(), 64 * 5 * 4);
}

#[test]
fn strip_keeps_row_prefixes() {
    let buf: Vec<u8> = (0..12).collect();
    assert_eq!(strip_row_padding(&buf, 4, 3), vec![0, 1, 2, 4, 5, 6, 8, 9, 10]);
    assert_eq!(strip_row_padding(&buf, 6, 6), buf);
    assert_eq!(strip_row_padding(&[], 4, 2), Vec::<u8>::new());
}

#[test]
fn transfer_buffer_holds_padded_rows() {
    assert_eq!(transfer_buffer_size(RowLayout { stride: 512, padding: 112 }, 600), 512 * 600);
}

#[test]
fn renderer_textures() {
    let src = source_config(30, 20);
    assert_eq!(src.format, PixelFormat::Gray8);
    assert!(src.usage.copy_dst && src.usage.texture_binding && !src.usage.render_attachment);
    assert_eq!(bytes_layout(&src), RowLayout { stride: 30, padding: 0 });
    let ms = multisampled_config(100, 80);
    assert!(ms.multisampled && ms.usage.render_attachment && !ms.pad_bytes_per_row);
    assert_eq!(sample_count(&ms, 8), 8);
    let depth = depth_config(100, 80);
    assert_eq!(depth.format, PixelFormat::Depth32);
    assert!(depth.multisampled);
    let target = target_config(100, 80);
    assert!(target.usage.copy_src && target.pad_bytes_per_row && !target.multisampled);
    assert_eq!(sample_count(&target, 8), 1);
    assert_eq!(bytes_layout(&target), RowLayout { stride: 512, padding: 112 });
}

#[test]
fn wide_gray_rows_fit() {
    let cfg = config(PixelFormat::Gray8, 2_000_000_000, false);
    assert_eq!(bytes_layout(&cfg), RowLayout { stride: 2_000_000_000, padding: 0 });
}
