pub mod chord;
pub mod finger_entry;
pub mod finger_table;
pub mod kv_store;
pub mod pow;
pub mod ring;
pub mod successor_list;
pub mod validate;
