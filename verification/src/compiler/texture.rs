pub mod banner;
pub mod bti;
pub mod image;
pub mod rgb5a3;
