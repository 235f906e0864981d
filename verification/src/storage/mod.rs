pub mod disk;
pub mod page;
