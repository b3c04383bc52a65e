//! Gradient presets and the settings that persist between two launches.

use vstd::prelude::*;
use crate::model::{Ratio, Scale};

verus! {

/// A named gradient: identifier, display label and colour stops (RGBA8).
#[derive(Clone, Debug)]
pub struct GradientPreset {
    pub id: String,
    pub label: String,
    pub colors: Vec<[u8; 4]>,
}

/// Number of built-in gradient presets.
pub const PRESET_COUNT: usize = 14;

/// Identifiers of the built-in presets, in catalogue order.
pub open spec fn preset_ids() -> Seq<Seq<char>> {
    seq![
        "default"@, "sunset"@, "ocean"@, "purple_love"@, "mango"@, "aqua_marine"@, "cherry"@,
        "blush"@, "frost"@, "mint"@, "lavender"@, "steel"@, "coral"@, "emerald"@,
    ]
}

/// Display labels of the built-in presets, in catalogue order.
pub open spec fn preset_labels() -> Seq<Seq<char>> {
    seq![
        "Indigo"@, "Coucher de soleil"@, "Océan"@, "Violet"@, "Mangue"@, "Aigue-marine"@,
        "Cerise"@, "Blush"@, "Givre"@, "Menthe"@, "Lavande"@, "Acier"@, "Corail"@, "Émeraude"@,
    ]
}

/// An opaque colour.
pub open spec fn opaque(r: u8, g: u8, b: u8) -> [u8; 4] {
    [r, g, b, 255u8]
}

/// Colour stops of the built-in presets (two opaque stops each).
pub open spec fn preset_colors() -> Seq<Seq<[u8; 4]>> {
    seq![
        seq![opaque(99, 102, 241), opaque(236, 72, 153)],
        seq![opaque(255, 153, 102), opaque(255, 94, 98)],
        seq![opaque(46, 49, 146), opaque(27, 255, 255)],
        seq![opaque(204, 43, 94), opaque(117, 58, 136)],
        seq![opaque(255, 226, 89), opaque(255, 167, 81)],
        seq![opaque(26, 41, 128), opaque(38, 208, 206)],
        seq![opaque(235, 51, 73), opaque(244, 92, 67)],
        seq![opaque(221, 94, 137), opaque(247, 187, 151)],
        seq![opaque(0, 4, 40), opaque(0, 78, 146)],
        seq![opaque(0, 176, 155), opaque(150, 201, 61)],
        seq![opaque(127, 0, 255), opaque(225, 0, 255)],
        seq![opaque(35, 37, 38), opaque(65, 67, 69)],
        seq![opaque(255, 81, 47), opaque(221, 36, 118)],
        seq![opaque(52, 143, 80), opaque(86, 180, 211)],
    ]
}

/// `g` is the built-in preset number `i`.
pub open spec fn is_preset(g: GradientPreset, i: int) -> bool {
    &&& 0 <= i < PRESET_COUNT
    &&& g.id@ == preset_ids()[i]
    &&& g.label@ == preset_labels()[i]
    &&& g.colors@ == preset_colors()[i]
}

fn hex(r: u8, g: u8, b: u8) -> (c: [u8; 4])
    ensures
        c == opaque(r, g, b),
{
    [r, g, b, 255]
}

fn preset(id: &str, label: &str, first: [u8; 4], second: [u8; 4]) -> (g: GradientPreset)
    ensures
        g.id@ == id@,
        g.label@ == label@,
        g.colors@ == seq![first, second],
{
    let mut colors = Vec::new();
    colors.push(first);
    colors.push(second);
    GradientPreset { id: String::from_str(id), label: String::from_str(label), colors }
}

/// The catalogue of built-in gradients (14 presets chosen to look good in
/// most cases), in a fixed order whose first entry is the fallback.
pub fn builtin_gradients() -> (r: Vec<GradientPreset>)
    ensures
        r.len() == PRESET_COUNT,
        forall|i: int| 0 <= i < PRESET_COUNT ==> is_preset(#[trigger] r[i], i),
{
    let mut r = Vec::new();
    r.push(preset("default", "Indigo", hex(99, 102, 241), hex(236, 72, 153)));
    r.push(preset("sunset", "Coucher de soleil", hex(255, 153, 102), hex(255, 94, 98)));
    r.push(preset("ocean", "Océan", hex(46, 49, 146), hex(27, 255, 255)));
    r.push(preset("purple_love", "Violet", hex(204, 43, 94), hex(117, 58, 136)));
    r.push(preset("mango", "Mangue", hex(255, 226, 89), hex(255, 167, 81)));
    r.push(preset("aqua_marine", "Aigue-marine", hex(26, 41, 128), hex(38, 208, 206)));
    r.push(preset("cherry", "Cerise", hex(235, 51, 73), hex(244, 92, 67)));
    r.push(preset("blush", "Blush", hex(221, 94, 137), hex(247, 187, 151)));
    r.push(preset("frost", "Givre", hex(0, 4, 40), hex(0, 78, 146)));
    r.push(preset("mint", "Menthe", hex(0, 176, 155), hex(150, 201, 61)));
    r.push(preset("lavender", "Lavande", hex(127, 0, 255), hex(225, 0, 255)));
    r.push(preset("steel", "Acier", hex(35, 37, 38), hex(65, 67, 69)));
    r.push(preset("coral", "Corail", hex(255, 81, 47), hex(221, 36, 118)));
    r.push(preset("emerald", "Émeraude", hex(52, 143, 80), hex(86, 180, 211)));
    r
}

/// Position of the first built-in preset at or after `from` whose
/// identifier is `id`, or -1 when there is none.
pub open spec fn index_of_id(id: Seq<char>, from: int) -> int
    decreases PRESET_COUNT - from,
{
    if from < 0 || from >= PRESET_COUNT {
        -1
    } else if preset_ids()[from] == id {
        from
    } else {
        index_of_id(id, from + 1)
    }
}

/// The preset that `gradient_by_id` hands out for `id`: the first one with
/// that identifier, or the first of the catalogue when none has it.
pub open spec fn lookup_index(id: Seq<char>) -> int {
    let k = index_of_id(id, 0);
    if k < 0 { 0 } else { k }
}

/// Returns the preset whose identifier is `id`, or the first preset when
/// no preset has that identifier.
pub fn gradient_by_id(id: &str) -> (g: GradientPreset)
    ensures
        is_preset(g, lookup_index(id@)),
{
    proof {
        lemma_index_of_id_range(id@, 0);
    }
    let mut gradients = builtin_gradients();
    let key = id.to_owned();
    let mut i: usize = 0;
    while i < gradients.len()
        invariant
            gradients.len() == PRESET_COUNT,
            forall|k: int| 0 <= k < PRESET_COUNT ==> is_preset(#[trigger] gradients[k], k),
            key@ == id@,
            0 <= i <= PRESET_COUNT,
            index_of_id(id@, 0) == index_of_id(id@, i as int),
        decreases PRESET_COUNT - i,
    {
        if gradients[i].id == key {
            assert(is_preset(gradients[i as int], i as int));
            return gradients.swap_remove(i);
        }
        i += 1;
    }
    assert(is_preset(gradients[0], 0));
    gradients.swap_remove(0)
}

/// The catalogue, preset by preset: its identifier, its label and its two
/// colour stops (opaque RGBA, first stop then second).
pub proof fn lemma_catalogue()
    ensures
        preset_ids().len() == 14,
        preset_labels().len() == 14,
        preset_colors().len() == 14,
        preset_labels()[0] == "Indigo"@,
        preset_labels()[1] == "Coucher de soleil"@,
        preset_labels()[2] == "Océan"@,
        preset_labels()[3] == "Violet"@,
        preset_labels()[4] == "Mangue"@,
        preset_labels()[5] == "Aigue-marine"@,
        preset_labels()[6] == "Cerise"@,
        preset_labels()[7] == "Blush"@,
        preset_labels()[8] == "Givre"@,
        preset_labels()[9] == "Menthe"@,
        preset_labels()[10] == "Lavande"@,
        preset_labels()[11] == "Acier"@,
        preset_labels()[12] == "Corail"@,
        preset_labels()[13] == "Émeraude"@,
        preset_ids()[0] == "default"@,
        preset_colors()[0] == seq![[99u8, 102u8, 241u8, 255u8], [236u8, 72u8, 153u8, 255u8]],
        preset_ids()[1] == "sunset"@,
        preset_colors()[1] == seq![[255u8, 153u8, 102u8, 255u8], [255u8, 94u8, 98u8, 255u8]],
        preset_ids()[2] == "ocean"@,
        preset_colors()[2] == seq![[46u8, 49u8, 146u8, 255u8], [27u8, 255u8, 255u8, 255u8]],
        preset_ids()[3] == "purple_love"@,
        preset_colors()[3] == seq![[204u8, 43u8, 94u8, 255u8], [117u8, 58u8, 136u8, 255u8]],
        preset_ids()[4] == "mango"@,
        preset_colors()[4] == seq![[255u8, 226u8, 89u8, 255u8], [255u8, 167u8, 81u8, 255u8]],
        preset_ids()[5] == "aqua_marine"@,
        preset_colors()[5] == seq![[26u8, 41u8, 128u8, 255u8], [38u8, 208u8, 206u8, 255u8]],
        preset_ids()[6] == "cherry"@,
        preset_colors()[6] == seq![[235u8, 51u8, 73u8, 255u8], [244u8, 92u8, 67u8, 255u8]],
        preset_ids()[7] == "blush"@,
        preset_colors()[7] == seq![[221u8, 94u8, 137u8, 255u8], [247u8, 187u8, 151u8, 255u8]],
        preset_ids()[8] == "frost"@,
        preset_colors()[8] == seq![[0u8, 4u8, 40u8, 255u8], [0u8, 78u8, 146u8, 255u8]],
        preset_ids()[9] == "mint"@,
        preset_colors()[9] == seq![[0u8, 176u8, 155u8, 255u8], [150u8, 201u8, 61u8, 255u8]],
        preset_ids()[10] == "lavender"@,
        preset_colors()[10] == seq![[127u8, 0u8, 255u8, 255u8], [225u8, 0u8, 255u8, 255u8]],
        preset_ids()[11] == "steel"@,
        preset_colors()[11] == seq![[35u8, 37u8, 38u8, 255u8], [65u8, 67u8, 69u8, 255u8]],
        preset_ids()[12] == "coral"@,
        preset_colors()[12] == seq![[255u8, 81u8, 47u8, 255u8], [221u8, 36u8, 118u8, 255u8]],
        preset_ids()[13] == "emerald"@,
        preset_colors()[13] == seq![[52u8, 143u8, 80u8, 255u8], [86u8, 180u8, 211u8, 255u8]],
{
}

/// The built-in identifiers are pairwise distinct.
pub proof fn lemma_preset_ids_distinct()
    ensures
        forall|i: int, j: int|
            0 <= i < PRESET_COUNT && 0 <= j < PRESET_COUNT && i != j ==> preset_ids()[i]
                != preset_ids()[j],
{
    reveal_strlit("default");
    reveal_strlit("sunset");
    reveal_strlit("ocean");
    reveal_strlit("purple_love");
    reveal_strlit("mango");
    reveal_strlit("aqua_marine");
    reveal_strlit("cherry");
    reveal_strlit("blush");
    reveal_strlit("frost");
    reveal_strlit("mint");
    reveal_strlit("lavender");
    reveal_strlit("steel");
    reveal_strlit("coral");
    reveal_strlit("emerald");
    assert forall|i: int, j: int|
        0 <= i < PRESET_COUNT && 0 <= j < PRESET_COUNT && i != j implies preset_ids()[i]
            != preset_ids()[j] by {
        if preset_ids()[i] == preset_ids()[j] {
            assert(preset_ids()[i].len() == preset_ids()[j].len());
            assert(preset_ids()[i][0] == preset_ids()[j][0]);
            assert(preset_ids()[i][1] == preset_ids()[j][1]);
        }
    }
}

proof fn lemma_index_of_id_finds(i: int, from: int)
    requires
        0 <= from <= i < PRESET_COUNT,
    ensures
        index_of_id(preset_ids()[i], from) == i,
    decreases i - from,
{
    lemma_preset_ids_distinct();
    if from < i {
        assert(preset_ids()[from] != preset_ids()[i]);
        lemma_index_of_id_finds(i, from + 1);
    }
}

proof fn lemma_index_of_id_absent(id: Seq<char>, from: int)
    requires
        0 <= from <= PRESET_COUNT,
        forall|k: int| 0 <= k < PRESET_COUNT ==> preset_ids()[k] != id,
    ensures
        index_of_id(id, from) == -1,
    decreases PRESET_COUNT - from,
{
    if from < PRESET_COUNT {
        lemma_index_of_id_absent(id, from + 1);
    }
}

/// Looking a built-in preset up by its own identifier gives that preset
/// back; any other identifier gives the first preset.
pub proof fn lemma_lookup_by_id(id: Seq<char>)
    ensures
        forall|i: int| 0 <= i < PRESET_COUNT && preset_ids()[i] == id ==> lookup_index(id) == i,
        (forall|k: int| 0 <= k < PRESET_COUNT ==> preset_ids()[k] != id) ==> lookup_index(id)
            == 0,
        0 <= lookup_index(id) < PRESET_COUNT,
{
    assert forall|i: int| 0 <= i < PRESET_COUNT && preset_ids()[i] == id implies lookup_index(id)
        == i by {
        lemma_index_of_id_finds(i, 0);
    }
    if forall|k: int| 0 <= k < PRESET_COUNT ==> preset_ids()[k] != id {
        lemma_index_of_id_absent(id, 0);
    }
    lemma_index_of_id_range(id, 0);
}

proof fn lemma_index_of_id_range(id: Seq<char>, from: int)
    requires
        0 <= from,
    ensures
        -1 <= index_of_id(id, from) < PRESET_COUNT,
    decreases PRESET_COUNT - from,
{
    if from < PRESET_COUNT {
        lemma_index_of_id_range(id, from + 1);
    }
}

/// A file-system path of std (`std::path::PathBuf`), carried as it is.
#[verifier::external_type_specification]
#[verifier::external_body]
pub struct ExPathBuf(std::path::PathBuf);

/// Settings that survive between two launches: last export folder and the
/// last ratio, scale and background chosen explicitly by the user (the
/// automatic balance still applies to each new image, but these three
/// preferences take precedence once the image is loaded).
#[derive(Clone, Debug)]
pub struct AppSettings {
    pub last_export_dir: Option<std::path::PathBuf>,
    pub last_ratio: Ratio,
    pub last_scale: Scale,
    pub last_background_id: String,
}

impl Default for AppSettings {
    fn default() -> (s: Self)
        ensures
            s.last_export_dir is None,
            s.last_ratio == Ratio::Auto,
            s.last_scale == Scale::X2,
            s.last_background_id@ == "default"@,
    {
        AppSettings {
            last_export_dir: None,
            last_ratio: Ratio::default(),
            last_scale: Scale::default(),
            last_background_id: String::from_str("default"),
        }
    }
}

} // verus!
