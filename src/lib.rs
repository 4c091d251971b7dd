//! Keyboard-layout heatmap core: frequency tables, the layout grid, the
//! visual encoding of frequencies and the view that a layout switch rebuilds.

pub mod layout;
pub mod text;
pub mod frequency;
pub mod encode;
pub mod screen;
