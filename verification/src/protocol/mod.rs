pub mod encoder;
pub mod frame;
pub mod number;
pub mod parser;
pub mod roundtrip;
pub mod streaming;

pub use frame::{Frame, FrameView};
