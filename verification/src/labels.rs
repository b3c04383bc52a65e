//! Labels shown by the settings panel for the current background and ratio.

use vstd::prelude::*;
use crate::model::{Background, Ratio};
use crate::presets::{builtin_gradients, index_of_id, preset_labels, PRESET_COUNT};

verus! {

/// Label of the current background: the preset's label for a known
/// gradient, a generic word for an unknown gradient and for the other
/// kinds of background.
pub open spec fn background_text(b: Background) -> Seq<char> {
    match b {
        Background::Gradient(id) => {
            let i = index_of_id(id@, 0);
            if i >= 0 {
                preset_labels()[i]
            } else {
                "Dégradé"@
            }
        },
        Background::Solid(_) => "Couleur unie"@,
        Background::Transparent => "Transparent"@,
        Background::Image(_) => "Image"@,
    }
}

/// The label of `background` in the background picker.
pub fn background_label(background: &Background) -> (s: String)
    ensures
        s@ == background_text(*background),
{
    match background {
        Background::Gradient(id) => {
            let mut gradients = builtin_gradients();
            let mut i: usize = 0;
            while i < gradients.len()
                invariant
                    gradients.len() == PRESET_COUNT,
                    forall|k: int|
                        0 <= k < PRESET_COUNT ==> crate::presets::is_preset(#[trigger] gradients[k], k),
                    0 <= i <= PRESET_COUNT,
                    index_of_id(id@, 0) == index_of_id(id@, i as int),
                    *background == Background::Gradient(*id),
                decreases PRESET_COUNT - i,
            {
                if gradients[i].id == *id {
                    assert(crate::presets::is_preset(gradients[i as int], i as int));
                    assert(index_of_id(id@, i as int) == i);
                    return gradients.swap_remove(i).label;
                }
                i += 1;
            }
            String::from_str("Dégradé")
        },
        Background::Solid(_) => String::from_str("Couleur unie"),
        Background::Transparent => String::from_str("Transparent"),
        Background::Image(_) => String::from_str("Image"),
    }
}

/// Label of a ratio in the ratio picker.
pub open spec fn ratio_text(r: Ratio) -> Seq<char> {
    match r {
        Ratio::Auto => "Auto"@,
        Ratio::Fixed(w, h) => {
            if w == 16 && h == 9 {
                "16:9"@
            } else if w == 1 && h == 1 {
                "1:1"@
            } else if w == 4 && h == 3 {
                "4:3"@
            } else if w == 3 && h == 2 {
                "3:2"@
            } else {
                "Personnalisé"@
            }
        },
    }
}

/// The label of `ratio` in the ratio picker.
pub fn ratio_label(ratio: Ratio) -> (s: &'static str)
    ensures
        s@ == ratio_text(ratio),
{
    match ratio {
        Ratio::Auto => "Auto",
        Ratio::Fixed(16, 9) => "16:9",
        Ratio::Fixed(1, 1) => "1:1",
        Ratio::Fixed(4, 3) => "4:3",
        Ratio::Fixed(3, 2) => "3:2",
        Ratio::Fixed(_, _) => "Personnalisé",
    }
}

} // verus!
