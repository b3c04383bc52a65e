use framely::preview::{composite_on_checkerboard, downscale_for_preview};

#[test]
fn checkerboard_composite_makes_transparent_pixels_opaque() {
    let rgba = vec![0u8, 0, 0, 0]; // 1x1 transparent pixel
    let out = composite_on_checkerboard(1, 1, &rgba);
    assert_eq!(out[3], 255);
}

#[test]
fn checkerboard_composite_preserves_opaque_pixels() {
    let rgba = vec![10u8, 20, 30, 255];
    let out = composite_on_checkerboard(1, 1, &rgba);
    assert_eq!(out, vec![10, 20, 30, 255]);
}

#[test]
fn downscale_leaves_small_images_untouched() {
    let rgba = vec![1u8; 4 * 4 * 4];
    let (w, h, out) = downscale_for_preview(4, 4, &rgba, 100);
    assert_eq!((w, h), (4, 4));
    assert_eq!(out, rgba);
}

#[test]
fn downscale_shrinks_large_images() {
    let rgba = vec![1u8; 2000 * 10 * 4];
    let (w, h, out) = downscale_for_preview(2000, 10, &rgba, 1000);
    assert_eq!(w, 1000);
    assert!(h <= 10);
    assert_eq!(out.len(), (w * h * 4) as usize);
}

#[test]
fn checkerboard_cells_alternate() {
    // 16 x 1 fully transparent image: the first 8 pixels sit on a light
    // cell, the next 8 on a dark one.
    let rgba = vec![0u8; 16 * 4];
    let out = composite_on_checkerboard(16, 1, &rgba);
    assert_eq!(&out[0..4], &[235, 235, 235, 255]);
    assert_eq!(&out[7 * 4..8 * 4], &[235, 235, 235, 255]);
    assert_eq!(&out[8 * 4..9 * 4], &[214, 214, 214, 255]);
    // Half-transparent white over a light cell.
    let out = composite_on_checkerboard(1, 1, &[255, 255, 255, 128]);
    assert_eq!(out, vec![245, 245, 245, 255]);
    // Bytes past the image come out as zero.
    let out = composite_on_checkerboard(1, 1, &[1, 2, 3, 255, 9, 9]);
    assert_eq!(out, vec![1, 2, 3, 255, 0, 0]);
}

#[test]
fn downscale_picks_nearest_pixels() {
    // 4 x 2 image whose pixels are numbered 0..8 in their red channel.
    let mut rgba = Vec::new();
    for i in 0..8u8 {
        rgba.extend_from_slice(&[i, 0, 0, 255]);
    }
    let (w, h, out) = downscale_for_preview(4, 2, &rgba, 2);
    assert_eq!((w, h), (2, 1));
    assert_eq!(out, vec![0, 0, 0, 255, 2, 0, 0, 255]);
    // The larger side becomes exactly the limit.
    let rgba = vec![5u8; 300 * 7 * 4];
    let (w, h, out) = downscale_for_preview(7, 300, &rgba, 100);
    assert_eq!((w, h), (2, 100));
    assert_eq!(out.len(), 2 * 100 * 4);
    // A zero limit keeps a single pixel.
    let (w, h, out) = downscale_for_preview(7, 300, &rgba, 0);
    assert_eq!((w, h, out.len()), (1, 1, 4));
}

/// The downscale as written with single-precision floats, to compare with.
fn reference_downscale(width: u32, height: u32, rgba: &[u8], max_dim: u32) -> (u32, u32, Vec<u8>) {
    let largest = width.max(height);
    if largest <= max_dim || largest == 0 {
        return (width, height, rgba.to_vec());
    }
    let scale = max_dim as f32 / largest as f32;
    let new_w = ((width as f32 * scale).round() as u32).max(1);
    let new_h = ((height as f32 * scale).round() as u32).max(1);
    let mut out = vec![0u8; (new_w * new_h * 4) as usize];
    for y in 0..new_h {
        for x in 0..new_w {
            let src_x = ((x as f32 / scale) as u32).min(width - 1);
            let src_y = ((y as f32 / scale) as u32).min(height - 1);
            let src_i = ((src_y * width + src_x) * 4) as usize;
            let dst_i = ((y * new_w + x) * 4) as usize;
            out[dst_i..dst_i + 4].copy_from_slice(&rgba[src_i..src_i + 4]);
        }
    }
    (new_w, new_h, out)
}

fn numbered(width: u32, height: u32) -> Vec<u8> {
    (0..width * height * 4).map(|i| (i % 251) as u8).collect()
}

#[test]
fn downscale_follows_single_precision_rounding() {
    // 3 / 296 in single precision is a little below the exact ratio, so
    // 148 rows scale to 1.4999999 and round down to one.
    let rgba = numbered(296, 148);
    let (w, h, out) = downscale_for_preview(296, 148, &rgba, 3);
    assert_eq!((w, h), (3, 1));
    assert_eq!((w, h, out), reference_downscale(296, 148, &rgba, 3));
    // Output column 1 of a 30-pixel row shrunk to 2 reads source column 14
    // (1 / (2 / 30) is 14.999999 in single precision).
    let mut row = Vec::new();
    for i in 0..30u8 {
        row.extend_from_slice(&[i, 0, 0, 255]);
    }
    let (w, h, out) = downscale_for_preview(30, 1, &row, 2);
    assert_eq!((w, h), (2, 1));
    assert_eq!(out, vec![0, 0, 0, 255, 14, 0, 0, 255]);
}

#[test]
fn downscale_agrees_with_float_geometry_on_small_images() {
    for width in 1..=20u32 {
        for height in 1..=20u32 {
            let rgba = numbered(width, height);
            for max_dim in 0..=21u32 {
                assert_eq!(
                    downscale_for_preview(width, height, &rgba, max_dim),
                    reference_downscale(width, height, &rgba, max_dim),
                    "{}x{} to {}",
                    width,
                    height,
                    max_dim
                );
            }
        }
    }
}

#[test]
fn downscale_agrees_with_float_geometry_on_larger_images() {
    let sizes = [
        (296, 148, 3),
        (1000, 333, 7),
        (997, 3, 100),
        (513, 1024, 77),
        (4096, 3, 1000),
        (3, 1000, 999),
        (2500, 1400, 1024),
        (1920, 1080, 333),
        (777, 779, 778),
    ];
    for &(width, height, max_dim) in sizes.iter() {
        let rgba = numbered(width, height);
        assert_eq!(
            downscale_for_preview(width, height, &rgba, max_dim),
            reference_downscale(width, height, &rgba, max_dim),
            "{}x{} to {}",
            width,
            height,
            max_dim
        );
    }
}
