pub mod field;
pub mod bmp;
pub mod ant;
