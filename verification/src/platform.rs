pub mod board;
pub mod simplefb;
