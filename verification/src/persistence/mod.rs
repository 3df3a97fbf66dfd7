pub mod aof;
pub mod laws;
