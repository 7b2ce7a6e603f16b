pub mod element;
pub mod field;
pub mod frame;
