pub mod file_service;
pub mod scrcpy_manager;
