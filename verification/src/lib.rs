pub mod json;
pub mod liquipedia;
pub mod order;
pub mod pattern;
pub mod storage;
pub mod text;
pub mod types;
pub mod utils;
pub mod window;
