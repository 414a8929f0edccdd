//! Device drivers.
pub mod pl011;
