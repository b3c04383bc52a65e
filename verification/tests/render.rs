use framely::model::{Background, RawImage, Ratio, Scale, Style};
use framely::render::{
    auto_balance, background_paint, canvas_size, finish_render, plan_render, premultiply,
    unpremultiply, BackgroundPaint,
};

fn dummy_image(w: u32, h: u32) -> RawImage {
    let mut pixels = vec![0u8; (w * h * 4) as usize];
    for chunk in pixels.chunks_exact_mut(4) {
        chunk.copy_from_slice(&[10, 20, 30, 255]);
    }
    RawImage {
        width: w,
        height: h,
        pixels,
    }
}

#[test]
fn render_produces_padded_canvas() {
    let source = dummy_image(100, 60);
    let style = Style {
        padding: 20,
        scale: Scale::X1,
        ratio: Ratio::Auto,
        ..Style::default()
    };

    let plan = plan_render(&source, &style).expect("render should succeed");
    let rendered = finish_render(&plan.canvas);
    assert_eq!(rendered.width, 140); // 100 + 2*20
    assert_eq!(rendered.height, 100); // 60 + 2*20
    assert_eq!(rendered.pixels.len(), (140 * 100 * 4) as usize);
}

#[test]
fn render_respects_fixed_ratio() {
    let source = dummy_image(100, 100);
    let style = Style {
        padding: 10,
        ratio: Ratio::Fixed(16, 9),
        scale: Scale::X1,
        ..Style::default()
    };

    let plan = plan_render(&source, &style).expect("render should succeed");
    let rendered = finish_render(&plan.canvas);
    let ratio = rendered.width as f32 / rendered.height as f32;
    assert!((ratio - 16.0 / 9.0).abs() < 0.01);
}

#[test]
fn auto_balance_scales_padding_with_image_size() {
    let small = auto_balance(&dummy_image(100, 100));
    let large = auto_balance(&dummy_image(2000, 2000));
    assert!(large.padding >= small.padding);
}

#[test]
fn premultiply_unpremultiply_roundtrip_is_stable() {
    let original = vec![200u8, 100, 50, 128];
    let premul = premultiply(&original);
    let restored = unpremultiply(&premul);
    for i in 0..3 {
        assert!((original[i] as i16 - restored[i] as i16).abs() <= 1);
    }
    assert_eq!(original[3], restored[3]);
}

#[test]
fn premultiply_exact_values() {
    assert_eq!(premultiply(&[200, 100, 50, 128]), vec![100, 50, 25, 128]);
    assert_eq!(premultiply(&[255, 0, 7, 255, 1, 2]), vec![255, 0, 7, 255]);
    assert_eq!(unpremultiply(&[100, 50, 25, 128]), vec![199, 100, 50, 128]);
    assert_eq!(unpremultiply(&[9, 9, 9, 0]), vec![0, 0, 0, 0]);
    assert_eq!(unpremultiply(&[200, 0, 0, 100]), vec![255, 0, 0, 100]);
    for a in 1..=255u32 {
        for c in 0..=255u32 {
            let back = unpremultiply(&premultiply(&[c as u8, 0, 0, a as u8]));
            let r = back[0] as u32;
            assert!(r <= c);
            assert!((c - r) * a + a / 2 < 254 + a);
            if a == 255 {
                assert_eq!(r, c);
            }
        }
    }
}

#[test]
fn canvas_geometry() {
    let style = Style {
        padding: 20,
        scale: Scale::X2,
        ..Style::default()
    };
    assert_eq!(canvas_size(100, 60, &style), (280, 200));
    let fixed = Style {
        padding: 10,
        scale: Scale::X1,
        ratio: Ratio::Fixed(16, 9),
        ..Style::default()
    };
    assert_eq!(canvas_size(100, 100, &fixed), (213, 120));
    let tall = Style { ratio: Ratio::Fixed(1, 2), ..fixed.clone() };
    assert_eq!(canvas_size(100, 100, &tall), (120, 240));
    let flat = Style { ratio: Ratio::Fixed(0, 0), ..fixed.clone() };
    assert_eq!(canvas_size(100, 100, &flat), (120, 1));
    let wide = Style { ratio: Ratio::Fixed(3, 0), ..fixed.clone() };
    assert_eq!(canvas_size(100, 100, &wide), (u32::MAX, 120));
    let high = Style { ratio: Ratio::Fixed(0, 3), ..fixed.clone() };
    assert_eq!(canvas_size(100, 100, &high), (120, u32::MAX));
}

#[test]
fn plan_render_refuses_empty_and_oversized_canvases() {
    let style = Style::default();
    assert!(plan_render(&dummy_image(0, 10), &style).is_none());
    assert!(plan_render(&dummy_image(10, 0), &style).is_none());
    let wide = Style { ratio: Ratio::Fixed(3, 0), ..Style::default() };
    assert!(plan_render(&dummy_image(10, 10), &wide).is_none());
    let flat = Style { ratio: Ratio::Fixed(0, 0), scale: Scale::X1, padding: 0, ..Style::default() };
    let plan = plan_render(&dummy_image(10, 10), &flat).expect("a flat canvas is still a canvas");
    assert_eq!((plan.canvas_width, plan.canvas_height), (10, 1));
}

#[test]
fn plan_render_geometry_and_finish() {
    let source = dummy_image(30, 20);
    let style = Style { padding: 5, ..Style::default() };
    let mut plan = plan_render(&source, &style).expect("render should succeed");
    assert_eq!(plan.scale, 2);
    assert_eq!((plan.content_width, plan.content_height), (60, 40));
    assert_eq!((plan.canvas_width, plan.canvas_height), (80, 60));
    let blank = finish_render(&plan.canvas);
    assert!(blank.pixels.iter().all(|&b| b == 0));
    plan.canvas.fill(tiny_skia::Color::from_rgba8(200, 100, 50, 128));
    let filled = finish_render(&plan.canvas);
    assert_eq!(filled.pixels.len(), 80 * 60 * 4);
    assert_eq!(filled.pixels[3], 128);
    assert!((filled.pixels[0] as i16 - 200).abs() <= 2);
    assert!((filled.pixels[1] as i16 - 100).abs() <= 2);
    assert!((filled.pixels[2] as i16 - 50).abs() <= 2);
}

#[test]
fn auto_balance_exact_values() {
    let s = auto_balance(&dummy_image(100, 100));
    assert_eq!(s.padding, 32);
    let s = auto_balance(&dummy_image(1000, 300));
    assert_eq!(s.padding, 80);
    match &s.background {
        Background::Gradient(id) => assert_eq!(id, "coral"),
        _ => panic!("auto balance picks a gradient"),
    }
    let s = auto_balance(&dummy_image(1, 5000));
    assert_eq!(s.padding, 160);
    assert_eq!(s.corner_radius.bits, 12.0f32.to_bits());
    assert_eq!(s.ratio, Ratio::Auto);
    assert_eq!(s.scale, Scale::X2);
    let s = auto_balance(&dummy_image(7, 7));
    match &s.background {
        Background::Gradient(id) => assert_eq!(id, "default"),
        _ => panic!("auto balance picks a gradient"),
    }
}

#[test]
fn auto_balance_always_picks_a_builtin_gradient() {
    for (w, h) in [(1, 1), (13, 0), (900, 560), (3440, 1440), (u32::MAX, u32::MAX)] {
        let style = auto_balance(&RawImage { width: w, height: h, pixels: Vec::new() });
        match &style.background {
            Background::Gradient(id) => {
                assert_eq!(&framely::presets::gradient_by_id(id).id, id);
                assert_eq!(id, &framely::presets::builtin_gradients()[((w as u64 + h as u64) % 14) as usize].id);
            }
            _ => panic!("auto balance picks a gradient"),
        }
        assert!((32..=160).contains(&style.padding));
    }
}

#[test]
fn canvas_never_smaller_than_padded_content() {
    for ratio in [Ratio::Auto, Ratio::Fixed(16, 9), Ratio::Fixed(1, 1), Ratio::Fixed(9, 16), Ratio::Fixed(1, 1000)] {
        for scale in [Scale::X1, Scale::X2] {
            let style = Style { padding: 12, ratio, scale, ..Style::default() };
            let s = if scale == Scale::X1 { 1 } else { 2 };
            let (w, h) = canvas_size(300, 70, &style);
            assert!(w >= (300 + 24) * s);
            assert!(h >= (70 + 24) * s);
        }
    }
}

#[test]
fn background_paints() {
    assert!(matches!(background_paint(&Background::Transparent), BackgroundPaint::Clear));
    assert!(matches!(
        background_paint(&Background::Solid([1, 2, 3, 4])),
        BackgroundPaint::Fill([1, 2, 3, 4])
    ));
    assert!(matches!(
        background_paint(&Background::Image("wallpaper.png".to_string())),
        BackgroundPaint::Fill([240, 240, 240, 255])
    ));
    match background_paint(&Background::Gradient("sunset".to_string())) {
        BackgroundPaint::Gradient(colors) => {
            assert_eq!(colors, vec![[255, 153, 102, 255], [255, 94, 98, 255]])
        }
        _ => panic!("a gradient background paints a gradient"),
    }
    match background_paint(&Background::Gradient("no such preset".to_string())) {
        BackgroundPaint::Gradient(colors) => {
            assert_eq!(colors, vec![[99, 102, 241, 255], [236, 72, 153, 255]])
        }
        _ => panic!("an unknown preset falls back to the first one"),
    }
}

/// The canvas geometry as the drawing code writes it, in single precision.
fn reference_canvas(width: u32, height: u32, style: &Style) -> (u32, u32) {
    let scale = match style.scale {
        Scale::X1 => 1.0f32,
        Scale::X2 => 2.0,
    };
    let padding = style.padding as f32 * scale;
    let content_w = width as f32 * scale;
    let content_h = height as f32 * scale;
    let mut canvas_w = content_w + 2.0 * padding;
    let mut canvas_h = content_h + 2.0 * padding;
    if let Ratio::Fixed(rw, rh) = style.ratio {
        let target = rw as f32 / rh as f32;
        let current = canvas_w / canvas_h;
        if current < target {
            canvas_w = canvas_h * target;
        } else {
            canvas_h = canvas_w / target;
        }
    }
    (canvas_w.round().max(1.0) as u32, canvas_h.round().max(1.0) as u32)
}

#[test]
fn canvas_follows_single_precision_geometry() {
    // 2 / 13 rounds below the exact ratio in single precision.
    let style = Style { padding: 0, scale: Scale::X1, ratio: Ratio::Fixed(2, 13), ..Style::default() };
    assert_eq!(canvas_size(2497, 1951, &style), (2497, 16230));
    let style = Style { padding: 160, scale: Scale::X1, ratio: Ratio::Fixed(20, 49), ..Style::default() };
    assert_eq!(canvas_size(1170, 991, &style), (1490, 3650));
    // A side above 2^24 is rounded to single precision first.
    let style = Style { padding: 0, scale: Scale::X1, ratio: Ratio::Auto, ..Style::default() };
    assert_eq!(canvas_size(16_777_217, 1, &style), (16_777_216, 1));
    assert_eq!(canvas_size(16_777_219, 3, &style), (16_777_220, 3));
}

#[test]
fn canvas_agrees_with_float_geometry() {
    let mut x: u64 = 12345;
    let mut next = move |m: u64| {
        x = x.wrapping_mul(6_364_136_223_846_793_005).wrapping_add(1_442_695_040_888_963_407);
        (x >> 33) % m
    };
    let ratios = [
        Ratio::Auto,
        Ratio::Fixed(1, 1),
        Ratio::Fixed(4, 3),
        Ratio::Fixed(16, 9),
        Ratio::Fixed(9, 16),
        Ratio::Fixed(21, 9),
        Ratio::Fixed(3, 2),
        Ratio::Fixed(0, 5),
        Ratio::Fixed(5, 0),
        Ratio::Fixed(0, 0),
    ];
    for i in 0..20_000u32 {
        let width = 1 + next(if i % 3 == 0 { 5_000 } else { 4_000_000_000 }) as u32;
        let height = 1 + next(if i % 5 == 0 { 5_000 } else { 4_000_000_000 }) as u32;
        let padding = next(65_536) as u16;
        let scale = if next(2) == 0 { Scale::X1 } else { Scale::X2 };
        let ratio = match next(3) {
            0 => ratios[next(ratios.len() as u64) as usize].clone(),
            1 => Ratio::Fixed(1 + next(60) as u32, 1 + next(60) as u32),
            _ => Ratio::Fixed(next(4_000_000_000) as u32, next(4_000_000_000) as u32),
        };
        let style = Style { padding, scale, ratio, ..Style::default() };
        assert_eq!(
            canvas_size(width, height, &style),
            reference_canvas(width, height, &style),
            "{}x{} padding {} {:?} {:?}",
            width,
            height,
            padding,
            style.scale,
            style.ratio
        );
    }
}
