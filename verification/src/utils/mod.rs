pub mod parser;
pub mod process;
pub mod read;
pub mod sensors;
pub mod text;
