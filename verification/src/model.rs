//! Shared domain types: source image, style and its parts, and the document
//! that an editor session works on (with its undo and redo stacks).

use vstd::prelude::*;

verus! {

/// Raw source image (capture or import), never modified once acquired.
/// `pixels` holds RGBA8 samples, row-major, straight alpha.
#[derive(Clone, Debug)]
pub struct RawImage {
    pub width: u32,
    pub height: u32,
    pub pixels: Vec<u8>,
}

/// A single-precision float carried as its IEEE-754 bit pattern.
///
/// The library never computes with these values: it stores and moves them.
/// The drawing code reads them back with `f32::from_bits`.
#[derive(Clone, Copy, Debug, PartialEq, Eq, Structural)]
pub struct F32Bits {
    pub bits: u32,
}

/// Bit pattern of `12.0_f32`.
pub const TWELVE_BITS: u32 = 0x4140_0000u32;

/// Bit pattern of `24.0_f32`.
pub const TWENTY_FOUR_BITS: u32 = 0x41C0_0000u32;

/// Bit pattern of `0.35_f32`.
pub const POINT_THIRTY_FIVE_BITS: u32 = 0x3EB3_3333u32;

#[derive(Clone, Debug)]
pub enum Background {
    Gradient(String),
    Solid([u8; 4]),
    Transparent,
    Image(String),
}

/// The default background: the gradient preset named "default".
pub open spec fn is_default_background(b: Background) -> bool {
    b matches Background::Gradient(id) && id@ == "default"@
}

impl Default for Background {
    fn default() -> (b: Self)
        ensures
            is_default_background(b),
    {
        Background::Gradient(String::from_str("default"))
    }
}

/// Drop-shadow settings: intensity, blur radius and vertical offset.
#[derive(Clone, Copy, Debug)]
pub struct ShadowParams {
    pub intensity: F32Bits,
    pub blur: F32Bits,
    pub offset_y: F32Bits,
}

pub open spec fn is_default_shadow(s: ShadowParams) -> bool {
    &&& s.intensity.bits == POINT_THIRTY_FIVE_BITS
    &&& s.blur.bits == TWENTY_FOUR_BITS
    &&& s.offset_y.bits == TWELVE_BITS
}

impl Default for ShadowParams {
    fn default() -> (s: Self)
        ensures
            is_default_shadow(s),
    {
        ShadowParams {
            intensity: F32Bits { bits: POINT_THIRTY_FIVE_BITS },
            blur: F32Bits { bits: TWENTY_FOUR_BITS },
            offset_y: F32Bits { bits: TWELVE_BITS },
        }
    }
}

/// Output aspect ratio: free, or a fixed `width:height`.
#[derive(Clone, Copy, Debug, PartialEq, Eq, Structural)]
pub enum Ratio {
    Auto,
    Fixed(u32, u32),
}

impl Default for Ratio {
    fn default() -> (r: Self)
        ensures
            r == Ratio::Auto,
    {
        Ratio::Auto
    }
}

/// Output scale: @1x or @2x (Retina).
#[derive(Clone, Copy, Debug, PartialEq, Eq, Structural)]
pub enum Scale {
    X1,
    X2,
}

impl Default for Scale {
    fn default() -> (s: Self)
        ensures
            s == Scale::X2,
    {
        Scale::X2
    }
}

/// Current settings, applied to a source image to produce the final render.
#[derive(Clone, Debug)]
pub struct Style {
    pub background: Background,
    pub padding: u16,
    pub corner_radius: F32Bits,
    pub shadow: ShadowParams,
    pub ratio: Ratio,
    pub scale: Scale,
}

/// The default style: default gradient, 64 px of padding, 12 px corners,
/// the default shadow, free ratio, @2x.
pub open spec fn is_default_style(s: Style) -> bool {
    &&& is_default_background(s.background)
    &&& s.padding == 64
    &&& s.corner_radius.bits == TWELVE_BITS
    &&& is_default_shadow(s.shadow)
    &&& s.ratio == Ratio::Auto
    &&& s.scale == Scale::X2
}

impl Default for Style {
    fn default() -> (s: Self)
        ensures
            is_default_style(s),
    {
        Style {
            background: Background::default(),
            padding: 64,
            corner_radius: F32Bits { bits: TWELVE_BITS },
            shadow: ShadowParams::default(),
            ratio: Ratio::default(),
            scale: Scale::default(),
        }
    }
}

/// The editing state of a document: the current style, the undo stack
/// (oldest first, most recent last) and the redo stack (most recently
/// undone last).
pub struct EditState {
    pub style: Style,
    pub history: Seq<Style>,
    pub redo: Seq<Style>,
}

/// A fresh editing state: `style`, with nothing to undo or redo.
pub open spec fn fresh_state(style: Style) -> EditState {
    EditState { style, history: Seq::empty(), redo: Seq::empty() }
}

/// Applying a style pushes the current one on the undo stack and forgets
/// everything that could have been redone.
pub open spec fn applied(s: EditState, new_style: Style) -> EditState {
    EditState { style: new_style, history: s.history.push(s.style), redo: Seq::empty() }
}

/// Undo brings back the most recent style of the undo stack and pushes the
/// current one on the redo stack; with nothing to undo, nothing changes.
pub open spec fn undone(s: EditState) -> EditState {
    if s.history.len() == 0 {
        s
    } else {
        EditState {
            style: s.history.last(),
            history: s.history.drop_last(),
            redo: s.redo.push(s.style),
        }
    }
}

/// Redo brings back the most recently undone style and pushes the current
/// one on the undo stack; with nothing to redo, nothing changes.
pub open spec fn redone(s: EditState) -> EditState {
    if s.redo.len() == 0 {
        s
    } else {
        EditState {
            style: s.redo.last(),
            history: s.history.push(s.style),
            redo: s.redo.drop_last(),
        }
    }
}

/// Undoing right after applying a style brings back the previous style and
/// undo stack, and leaves exactly the applied style to redo.
pub proof fn lemma_undo_reverts_apply(s: EditState, new_style: Style)
    ensures
        undone(applied(s, new_style)) == (EditState {
            style: s.style,
            history: s.history,
            redo: seq![new_style],
        }),
{
    assert(applied(s, new_style).history.drop_last() =~= s.history);
    assert(Seq::<Style>::empty().push(new_style) =~= seq![new_style]);
}

/// Redoing right after a successful undo restores the state exactly.
pub proof fn lemma_redo_reverts_undo(s: EditState)
    requires
        s.history.len() > 0,
    ensures
        redone(undone(s)) == s,
{
    assert(undone(s).redo.drop_last() =~= s.redo);
    assert(s.history.drop_last().push(s.history.last()) =~= s.history);
}

/// Undoing right after a successful redo restores the state exactly.
pub proof fn lemma_undo_reverts_redo(s: EditState)
    requires
        s.redo.len() > 0,
    ensures
        undone(redone(s)) == s,
{
    assert(redone(s).history.drop_last() =~= s.history);
    assert(s.redo.drop_last().push(s.redo.last()) =~= s.redo);
}

/// The state after `k` undos in a row.
pub open spec fn undone_times(s: EditState, k: nat) -> EditState
    decreases k,
{
    if k == 0 {
        s
    } else {
        undone_times(undone(s), (k - 1) as nat)
    }
}

/// The state after `k` redos in a row.
pub open spec fn redone_times(s: EditState, k: nat) -> EditState
    decreases k,
{
    if k == 0 {
        s
    } else {
        redone(redone_times(s, (k - 1) as nat))
    }
}

/// Undo and redo are inverse at any depth: undoing `k` steps that the
/// history holds, then redoing `k` steps, restores the state exactly.
pub proof fn lemma_redos_revert_undos(s: EditState, k: nat)
    requires
        k <= s.history.len(),
    ensures
        redone_times(undone_times(s, k), k) == s,
    decreases k,
{
    if k > 0 {
        let u = undone(s);
        lemma_redos_revert_undos(u, (k - 1) as nat);
        lemma_redo_reverts_undo(s);
    }
}

/// Applying a style discards the redo stack: a redo right after it does
/// nothing.
pub proof fn lemma_apply_clears_redo(s: EditState, new_style: Style)
    ensures
        applied(s, new_style).redo.len() == 0,
        redone(applied(s, new_style)) == applied(s, new_style),
{
}

/// A freshly opened document has nothing to undo or redo.
pub proof fn lemma_fresh_state_is_idle(style: Style)
    ensures
        undone(fresh_state(style)) == fresh_state(style),
        redone(fresh_state(style)) == fresh_state(style),
{
}

/// An apply grows the undo stack by one; a successful undo or redo moves
/// exactly one style from one stack to the other, so that together the two
/// stacks keep their size.
pub proof fn lemma_history_lengths(s: EditState, new_style: Style)
    ensures
        applied(s, new_style).history.len() == s.history.len() + 1,
        s.history.len() > 0 ==> undone(s).history.len() == s.history.len() - 1,
        s.redo.len() > 0 ==> redone(s).history.len() == s.history.len() + 1,
        undone(s).history.len() + undone(s).redo.len() == s.history.len() + s.redo.len(),
        redone(s).history.len() + redone(s).redo.len() == s.history.len() + s.redo.len(),
{
}

/// Document open in the editor: source image, current style and the
/// undo/redo history of styles.
pub struct Document {
    pub source: RawImage,
    pub style: Style,
    history: Vec<Style>,
    redo_stack: Vec<Style>,
}

impl View for Document {
    type V = EditState;

    closed spec fn view(&self) -> EditState {
        EditState { style: self.style, history: self.history@, redo: self.redo_stack@ }
    }
}

impl Document {
    /// The source image of the document (the `source` field).
    pub closed spec fn source_image(&self) -> RawImage {
        self.source
    }

    /// Opens `source` with the default style and an empty history.
    pub fn new(source: RawImage) -> (d: Self)
        ensures
            d.source_image() == source,
            d@ == fresh_state(d@.style),
            is_default_style(d@.style),
    {
        Document { source, style: Style::default(), history: Vec::new(), redo_stack: Vec::new() }
    }

    /// The current style.
    pub fn style(&self) -> (s: &Style)
        ensures
            *s == self@.style,
    {
        &self.style
    }

    /// The source image.
    pub fn source(&self) -> (r: &RawImage)
        ensures
            *r == self.source_image(),
    {
        &self.source
    }

    /// Applies a new style, pushing the previous one on the undo stack.
    pub fn apply_style(&mut self, new_style: Style)
        ensures
            final(self)@ == applied(old(self)@, new_style),
            final(self).source_image() == old(self).source_image(),
    {
        let mut previous = new_style;
        std::mem::swap(&mut self.style, &mut previous);
        self.history.push(previous);
        self.redo_stack.clear();
    }

    /// Goes back to the previous style; `false` when there is none.
    pub fn undo(&mut self) -> (done: bool)
        ensures
            done == (old(self)@.history.len() > 0),
            final(self)@ == undone(old(self)@),
            final(self).source_image() == old(self).source_image(),
    {
        if let Some(previous) = self.history.pop() {
            let mut current = previous;
            std::mem::swap(&mut self.style, &mut current);
            self.redo_stack.push(current);
            true
        } else {
            false
        }
    }

    /// Re-applies the most recently undone style; `false` when there is none.
    pub fn redo(&mut self) -> (done: bool)
        ensures
            done == (old(self)@.redo.len() > 0),
            final(self)@ == redone(old(self)@),
            final(self).source_image() == old(self).source_image(),
    {
        if let Some(next) = self.redo_stack.pop() {
            let mut current = next;
            std::mem::swap(&mut self.style, &mut current);
            self.history.push(current);
            true
        } else {
            false
        }
    }

    /// Applies the default style (an undoable step like any other).
    pub fn reset_to_default(&mut self)
        ensures
            final(self)@ == applied(old(self)@, final(self)@.style),
            is_default_style(final(self)@.style),
            final(self).source_image() == old(self).source_image(),
    {
        self.apply_style(Style::default());
    }
}

} // verus!
