//! Local file transfer between computers, Android phones and Apple devices.

pub mod airdrop;
pub mod approve;
pub mod bytes;
pub mod cli;
pub mod compress;
pub mod crypto;
pub mod discover;
pub mod encoding;
pub mod error;
pub mod laws;
pub mod mime;
pub mod native;
pub mod net;
pub mod paths;
pub mod quickshare;
pub mod radio;
pub mod sanitize;
pub mod service;
pub mod text;
