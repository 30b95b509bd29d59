//! The drawing kit of the applications: a software canvas, a bitmap font, the
//! input dialect, whole frames and buttons.
pub mod call_laws;
pub mod canvas;
pub mod canvas_laws;
pub mod font;
pub mod font_data;
pub mod input;
pub mod input_laws;
pub mod lettering;
pub mod paint;
pub mod widgets;

pub use canvas::{Canvas, Color, RgbaImg};
pub use font::{cell_h, cell_w, glyph, Glyph};
pub use input::{parse_line, Event, Phase, Touch};
pub use paint::paint_frame;
pub use widgets::Button;
