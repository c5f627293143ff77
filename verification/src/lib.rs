//! Colour-palette remapping: palette parsing, a 3-D colour lookup table, the
//! pixel pass that applies it, and the palette deduplication the colour
//! interpolations use.

pub mod dedup;
pub mod image_processing;
pub mod lut;
pub mod naming;
pub mod palette;
pub mod text;

pub use image_processing::{img_resize, process, process_image, RgbaImage};
pub use lut::{LUT, LUT_LEN, LUT_SIZE};
pub use palette::{parse_hex_str, Palette};
