pub mod api;
pub mod import;
pub mod parser;
pub mod response;
pub mod updates;
