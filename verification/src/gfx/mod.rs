//! Graphics: colours, surfaces, the font, and the CRT presentation pass.

pub mod palette;
pub mod draw;
pub mod font;
pub mod scene;
