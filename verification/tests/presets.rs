use framely::model::{Ratio, Scale};
use framely::presets::{builtin_gradients, gradient_by_id, AppSettings};

#[test]
fn gradient_by_id_falls_back_to_first_preset() {
    let known = gradient_by_id("ocean");
    assert_eq!(known.id, "ocean");

    let unknown = gradient_by_id("does-not-exist");
    assert_eq!(unknown.id, builtin_gradients()[0].id);
}

#[test]
fn builtin_catalogue_has_fourteen_distinct_presets() {
    let gradients = builtin_gradients();
    assert_eq!(gradients.len(), 14);
    for (i, a) in gradients.iter().enumerate() {
        assert_eq!(a.colors.len(), 2);
        for c in &a.colors {
            assert_eq!(c[3], 255);
        }
        for b in gradients.iter().skip(i + 1) {
            assert_ne!(a.id, b.id);
        }
    }
    assert_eq!(gradients[0].id, "default");
    assert_eq!(gradients[0].label, "Indigo");
    assert_eq!(gradients[0].colors, vec![[99, 102, 241, 255], [236, 72, 153, 255]]);
    assert_eq!(gradients[13].id, "emerald");
    assert_eq!(gradients[13].label, "Émeraude");
    assert_eq!(gradients[13].colors, vec![[52, 143, 80, 255], [86, 180, 211, 255]]);
}

#[test]
fn every_preset_is_found_by_its_id() {
    for preset in builtin_gradients() {
        let found = gradient_by_id(&preset.id);
        assert_eq!(found.id, preset.id);
        assert_eq!(found.label, preset.label);
        assert_eq!(found.colors, preset.colors);
    }
    let ocean = gradient_by_id("ocean");
    assert_eq!(ocean.label, "Océan");
    assert_eq!(ocean.colors, vec![[46, 49, 146, 255], [27, 255, 255, 255]]);
    assert_eq!(gradient_by_id("").id, "default");
    assert_eq!(gradient_by_id("OCEAN").id, "default");
}

#[test]
fn default_settings() {
    let settings = AppSettings::default();
    assert!(settings.last_export_dir.is_none());
    assert_eq!(settings.last_ratio, Ratio::Auto);
    assert_eq!(settings.last_scale, Scale::X2);
    assert_eq!(settings.last_background_id, "default");
}
