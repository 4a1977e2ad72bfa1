//! The command protocol of a chat service, read from text frames.
//!
//! [`cmd`] holds the commands and reads a frame as one; [`token`] cuts a frame
//! into its arguments; [`encoding`] relates the characters of a text to its bytes.

pub mod cmd;
pub mod encoding;
pub mod token;
