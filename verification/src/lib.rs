pub mod entry;
pub mod registry;
