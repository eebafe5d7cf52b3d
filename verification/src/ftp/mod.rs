pub mod client;
pub mod lines;
pub mod order;
pub mod parser;
pub mod types;
