//! Boot-time work: the device tree and the initial translation tables.
pub mod dtb;
pub mod map;
