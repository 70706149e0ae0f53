pub mod assembler;
pub mod banner;
pub mod big_endian;
pub mod config;
pub mod demangle;
pub mod dol;
pub mod framework_map;
pub mod iso;
pub mod opt;
pub mod static_lib;
pub mod symbols;
pub mod text_codec;
pub mod texture;
