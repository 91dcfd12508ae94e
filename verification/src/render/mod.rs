pub mod bigtext;
pub mod body;
pub mod code;
pub mod image_ascii;
pub mod layout;
pub mod slide;
pub mod style;
pub mod table;
pub mod text;

pub use crate::render::slide::{
    ascii_image_area, compute_native_image_rect, rect_is_defined, render_is_defined, render_slide,
    NativeImageRect, RenderOutput, RenderParams,
};
pub use crate::render::style::Theme;
