pub mod class;
pub mod memory;
