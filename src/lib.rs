pub mod bencode;
pub mod bytes;
pub mod digest;
pub mod error;
pub mod text;
pub mod torrent;
pub mod extension;
pub mod message;
pub mod download;
pub mod handshake;
pub mod metadata;
pub mod tracker;
pub mod magnet;
