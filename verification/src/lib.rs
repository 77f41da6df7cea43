//! Pairing an Android device for wireless debugging by QR code.
//!
//! The library decides what a session does: it makes the credentials and draws
//! the QR code, reads what adb prints, recognises the device on the network, and
//! says step by step what to do next. Running commands, opening sockets and
//! printing are left to the program that uses it.

pub mod adb;
pub mod address;
pub mod connect;
pub mod credentials;
pub mod device;
pub mod manual;
pub mod pairing;
pub mod probe;
pub mod qr;
pub mod scan;
pub mod text;
