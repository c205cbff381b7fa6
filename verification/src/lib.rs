//! Leak-resistant VPN Gate to SOCKS5 service: verified parsing, validation and policy core.

pub mod text;
pub mod automatic_tests;
pub mod domain;
pub mod openvpn;
pub mod config;
pub mod socks;
pub mod vpngate;
pub mod mihomo;
pub mod auto_connect;
pub mod test_registry;
pub mod netd;
pub mod service;
pub mod api;
pub mod storage;
pub mod cli;
pub mod quality;
pub mod profile_laws;
