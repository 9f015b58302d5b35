//! Virtual memory: addresses, permissions, mapped areas and address spaces.

pub mod address;
pub mod area;
pub mod space;
pub mod memory_set;
