//! Framely: the verified core of a screenshot beautifier.
//!
//! The library holds the editor's data model (source image, style, undo and
//! redo history), the gradient catalogue, the canvas geometry and pixel
//! conversions of the rendering pipeline, the preview helpers, the
//! procedural demo image, and the decisions taken around screen capture,
//! clipboard/file export and the menu bar.

pub mod model;
pub mod presets;
pub mod render;
pub mod binary32;
pub mod preview;
pub mod demo_image;
pub mod io;
pub mod capture;
pub mod system;
pub mod labels;
