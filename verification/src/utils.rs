pub mod graph;
pub mod result_format;
pub mod strings;
pub mod utils;
