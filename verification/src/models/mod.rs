pub mod device;
pub mod file;
