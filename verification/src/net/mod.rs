//! Network device state and socket bookkeeping types.
pub mod device;
pub mod iface;
