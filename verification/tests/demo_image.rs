use framely::demo_image::generate;

fn pixel(img: &framely::model::RawImage, x: u32, y: u32) -> [u8; 4] {
    let i = ((y * img.width + x) * 4) as usize;
    [img.pixels[i], img.pixels[i + 1], img.pixels[i + 2], img.pixels[i + 3]]
}

#[test]
fn demo_image_layout() {
    let img = generate(900, 560);
    assert_eq!((img.width, img.height), (900, 560));
    assert_eq!(img.pixels.len(), 900 * 560 * 4);
    // Title bar (67 px high).
    assert_eq!(pixel(&img, 0, 0), [225, 226, 230, 255]);
    assert_eq!(pixel(&img, 899, 66), [225, 226, 230, 255]);
    // Window buttons, centred 6 px right of x = 20, 44, 68 and 6 px below y = 33.
    assert_eq!(pixel(&img, 26, 39), [255, 95, 86, 255]);
    assert_eq!(pixel(&img, 50, 39), [255, 189, 46, 255]);
    assert_eq!(pixel(&img, 74, 39), [39, 201, 63, 255]);
    assert_eq!(pixel(&img, 20, 33), [225, 226, 230, 255]);
    // Background around the card (margin 54 px).
    assert_eq!(pixel(&img, 5, 100), [246, 246, 248, 255]);
    assert_eq!(pixel(&img, 53, 300), [246, 246, 248, 255]);
    assert_eq!(pixel(&img, 450, 506), [246, 246, 248, 255]);
    // Card.
    assert_eq!(pixel(&img, 60, 130), [255, 255, 255, 255]);
    assert_eq!(pixel(&img, 845, 505), [255, 255, 255, 255]);
    // Accent block: x in 108..792, y in 175..199.
    assert_eq!(pixel(&img, 200, 180), [99, 102, 241, 255]);
    assert_eq!(pixel(&img, 791, 198), [99, 102, 241, 255]);
    assert_eq!(pixel(&img, 792, 180), [255, 255, 255, 255]);
    // First text line: y in 223..231.
    assert_eq!(pixel(&img, 300, 225), [200, 202, 208, 255]);
    assert_eq!(pixel(&img, 300, 231), [255, 255, 255, 255]);
    // Last text line: y in 303..311, 160 px shorter (x in 108..632).
    assert_eq!(pixel(&img, 600, 305), [200, 202, 208, 255]);
    assert_eq!(pixel(&img, 700, 305), [255, 255, 255, 255]);
}

#[test]
fn demo_image_small_sizes() {
    let img = generate(0, 0);
    assert!(img.pixels.is_empty());
    // Too short for any text line: only background, title bar, dots, card, accent.
    let img = generate(100, 40);
    assert_eq!(img.pixels.len(), 100 * 40 * 4);
    assert!(img.pixels.chunks_exact(4).all(|p| p != [200, 202, 208, 255]));
    assert!(img.pixels.chunks_exact(4).all(|p| p[3] == 255));
}

#[test]
fn demo_title_bar_follows_single_precision() {
    // 12 % of 16 777 217 in single precision is 2 013 265.875, rounded down
    // one row less than the exact 2 013 266.04: the accent block (the card margin of a
    // one-pixel-wide image is zero) starts right below the title bar.
    let img = generate(1, 16_777_217);
    assert_eq!(pixel(&img, 0, 2_013_264), [225, 226, 230, 255]);
    assert_eq!(pixel(&img, 0, 2_013_265), [99, 102, 241, 255]);
    assert_eq!(pixel(&img, 0, 2_013_288), [99, 102, 241, 255]);
    assert_eq!(pixel(&img, 0, 2_013_289), [255, 255, 255, 255]);
}
