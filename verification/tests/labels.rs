use framely::labels::{background_label, ratio_label};
use framely::model::{Background, Ratio};

#[test]
fn background_labels() {
    assert_eq!(background_label(&Background::Gradient("ocean".to_string())), "Océan");
    assert_eq!(background_label(&Background::Gradient("default".to_string())), "Indigo");
    assert_eq!(background_label(&Background::Gradient("nope".to_string())), "Dégradé");
    assert_eq!(background_label(&Background::Solid([1, 2, 3, 4])), "Couleur unie");
    assert_eq!(background_label(&Background::Transparent), "Transparent");
    assert_eq!(background_label(&Background::Image("a.png".to_string())), "Image");
}

#[test]
fn ratio_labels() {
    assert_eq!(ratio_label(Ratio::Auto), "Auto");
    assert_eq!(ratio_label(Ratio::Fixed(16, 9)), "16:9");
    assert_eq!(ratio_label(Ratio::Fixed(1, 1)), "1:1");
    assert_eq!(ratio_label(Ratio::Fixed(4, 3)), "4:3");
    assert_eq!(ratio_label(Ratio::Fixed(3, 2)), "3:2");
    assert_eq!(ratio_label(Ratio::Fixed(9, 16)), "Personnalisé");
}
