pub mod adb;
pub mod atx_init;
