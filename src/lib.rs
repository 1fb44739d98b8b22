//! Hides one encrypted record in the low bits of an image's colour channels.

pub mod crypto;
pub mod password;
pub mod stego;
pub mod vault;
