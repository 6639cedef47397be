pub mod cli;
pub mod move_ir;
pub mod scanner;
pub mod utils;
