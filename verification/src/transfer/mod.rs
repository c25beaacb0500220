//! Layout transfer: the compact single-line text that carries a tower layout.

pub mod base64_text;
pub mod codec;
pub mod error;
pub mod text;
pub mod legacy;
pub mod snapshot;
pub mod import;
