pub mod disk_manager;
pub mod disk_scheduler;
