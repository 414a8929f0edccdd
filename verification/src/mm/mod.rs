//! Memory management: translation table descriptors and the table pool.
pub mod table;
pub mod table_alloc;
