pub mod canvas;
pub mod color;
pub mod error;
pub mod logo;
pub mod qr;
pub mod render;
pub mod svg;
pub mod styles;
pub mod text;
