//! Verified wire-format codecs and protocol logic for a family of network protocols.
#![allow(unused_imports)]

pub mod error;
pub mod wire;
pub mod clock;
pub mod credentials;
pub mod ascii;
pub mod text;
pub mod ms_adts;
pub mod ntlm;
pub mod natpmp;
pub mod redis;
pub mod redis_server;
pub mod ldap;
pub mod mqtt;
pub mod tds;
pub mod mysql;
pub mod ms_dnsp;
pub mod nrtp;
pub mod ms_dtyp;
pub mod ntp;
pub mod secauthz;
pub mod pjl;
pub mod mms;
pub mod ms_crtd;
pub mod rfb;
pub mod nuuo;
pub mod rmi;
pub mod sasl;
pub mod mdns;
pub mod mssql;
pub mod socks5;
pub mod quake;
