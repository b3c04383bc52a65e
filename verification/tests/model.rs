use framely::model::{Background, Document, F32Bits, RawImage, Ratio, Scale, ShadowParams, Style};

fn dummy_image() -> RawImage {
    RawImage {
        width: 10,
        height: 10,
        pixels: vec![0; 10 * 10 * 4],
    }
}

#[test]
fn undo_redo_roundtrip() {
    let mut doc = Document::new(dummy_image());
    let original_padding = doc.style.padding;

    let mut changed = doc.style.clone();
    changed.padding = 128;
    doc.apply_style(changed);
    assert_eq!(doc.style.padding, 128);

    assert!(doc.undo());
    assert_eq!(doc.style.padding, original_padding);

    assert!(doc.redo());
    assert_eq!(doc.style.padding, 128);

    assert!(!doc.redo());
}

#[test]
fn default_style_values() {
    let style = Style::default();
    match &style.background {
        Background::Gradient(id) => assert_eq!(id, "default"),
        _ => panic!("the default background is a gradient"),
    }
    assert_eq!(style.padding, 64);
    assert_eq!(style.corner_radius.bits, 12.0f32.to_bits());
    assert_eq!(style.shadow.intensity.bits, 0.35f32.to_bits());
    assert_eq!(style.shadow.blur.bits, 24.0f32.to_bits());
    assert_eq!(style.shadow.offset_y.bits, 12.0f32.to_bits());
    assert_eq!(style.ratio, Ratio::Auto);
    assert_eq!(style.scale, Scale::X2);
    let shadow = ShadowParams::default();
    assert_eq!(f32::from_bits(shadow.intensity.bits), 0.35);
}

#[test]
fn fresh_document_has_nothing_to_undo_or_redo() {
    let mut doc = Document::new(dummy_image());
    assert!(!doc.undo());
    assert!(!doc.redo());
    assert_eq!(doc.style.padding, 64);
    assert_eq!(doc.source.width, 10);
}

#[test]
fn undo_after_apply_restores_and_apply_clears_redo() {
    let mut doc = Document::new(dummy_image());
    let mut a = doc.style.clone();
    a.padding = 10;
    let mut b = doc.style.clone();
    b.padding = 20;
    doc.apply_style(a);
    doc.apply_style(b);
    assert!(doc.undo());
    assert_eq!(doc.style.padding, 10);
    // A new style forgets what could have been redone.
    let mut c = doc.style.clone();
    c.corner_radius = F32Bits { bits: 3.0f32.to_bits() };
    doc.apply_style(c);
    assert!(!doc.redo());
    assert!(doc.undo());
    assert_eq!(doc.style.padding, 10);
    assert_eq!(doc.style.corner_radius.bits, 12.0f32.to_bits());
    assert!(doc.undo());
    assert_eq!(doc.style.padding, 64);
    assert!(!doc.undo());
    // Everything undone can be redone, in order.
    assert!(doc.redo());
    assert_eq!(doc.style.padding, 10);
    assert!(doc.redo());
    assert_eq!(doc.style.corner_radius.bits, 3.0f32.to_bits());
    assert!(!doc.redo());
}

#[test]
fn reset_to_default_is_undoable() {
    let mut doc = Document::new(dummy_image());
    let mut changed = doc.style.clone();
    changed.padding = 7;
    changed.ratio = Ratio::Fixed(4, 3);
    changed.background = Background::Transparent;
    doc.apply_style(changed);
    doc.reset_to_default();
    assert_eq!(doc.style.padding, 64);
    assert_eq!(doc.style.ratio, Ratio::Auto);
    assert!(doc.undo());
    assert_eq!(doc.style.padding, 7);
    assert_eq!(doc.style.ratio, Ratio::Fixed(4, 3));
    assert!(matches!(doc.style.background, Background::Transparent));
}

#[test]
fn document_getters_read_the_fields() {
    let mut doc = Document::new(dummy_image());
    assert_eq!(doc.source().width, 10);
    assert_eq!(doc.source().pixels.len(), 400);
    let mut changed = doc.style().clone();
    changed.padding = 7;
    doc.apply_style(changed);
    assert_eq!(doc.style().padding, 7);
    assert_eq!(doc.style().padding, doc.style.padding);
    doc.undo();
    assert_ne!(doc.style().padding, 7);
}
