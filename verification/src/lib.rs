pub mod clock;
pub mod command;
pub mod persistence;
pub mod protocol;
pub mod session;
pub mod storage;
pub mod text;
