pub mod buffer;
pub mod checksum;
pub mod le_bytes;
pub mod ota;
pub mod storage;
pub mod tiny_http;
pub mod update;
