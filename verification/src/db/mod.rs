pub mod index_store;
pub mod inventory;
pub mod novel_codec;
pub mod novel_record;
pub mod paths;
pub mod sort;
pub mod database;
