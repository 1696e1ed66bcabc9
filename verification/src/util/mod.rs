//! Small building blocks shared by the codecs.
pub mod spsc;
