pub mod json;
pub mod laws;
pub mod maker;
pub mod records;
pub mod storage;
pub mod strmap;
pub mod table;
pub mod text;
