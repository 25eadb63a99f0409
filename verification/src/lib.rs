//! Verified core of a virtual-machine environment server.
pub mod error;
pub mod table;
pub mod types;
pub mod env;
pub mod text;
pub mod serv;
pub mod mocker;
pub mod zlib;
pub mod protocol;
pub mod images;
pub mod firewall;
pub mod engine;
