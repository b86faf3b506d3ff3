pub mod load_test;
pub mod sclang;
