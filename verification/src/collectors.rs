//! One module per source of inventory data.
pub mod dmi;
pub mod ipmi;
pub mod network;
pub mod pci;
pub mod sensors;
pub mod smart;
