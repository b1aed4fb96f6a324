pub mod batch_processor;
pub mod screenshot_cache;
