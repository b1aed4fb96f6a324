pub mod scrcpy_ws;
