//! The verified core of lowping, a tunnel that carries game traffic over
//! bridges with shorter paths to the game servers.

pub mod bytes;
pub mod crypto;
pub mod addr;
pub mod protocol;
pub mod handshake;
pub mod encoding;
pub mod signing;
pub mod license;
pub mod fec;
pub mod table;
pub mod text;
pub mod aws_regions;
pub mod receiver;
pub mod router;
pub mod capture;
pub mod bridge;
pub mod tunnel;
pub mod forwarder;
pub mod smart;
pub mod config;
pub mod dashboard;
pub mod backend;
