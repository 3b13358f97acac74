//! The resolved connection settings the mount consumes. Loading and
//! decoding the configuration file is the surrounding program's business;
//! the core only reads the fields.

use std::collections::HashMap;

use vstd::prelude::*;

verus! {

/// One server's settings: identity, network target, initial channels, and
/// the options forwarded to the session library verbatim.
#[derive(Debug)]
pub struct ServerConfig {
    pub owners: Option<Vec<String>>,
    pub nickname: Option<String>,
    pub nick_password: Option<String>,
    pub alt_nicks: Option<Vec<String>>,
    pub username: Option<String>,
    pub realname: Option<String>,
    pub server: Option<String>,
    pub port: Option<u16>,
    pub password: Option<String>,
    pub use_ssl: Option<bool>,
    pub cert_path: Option<String>,
    pub encoding: Option<String>,
    pub channels: Option<Vec<String>>,
    pub channel_keys: Option<HashMap<String, String>>,
    pub umodes: Option<String>,
    pub user_info: Option<String>,
    pub version: Option<String>,
    pub source: Option<String>,
    pub ping_time: Option<u32>,
    pub ping_timeout: Option<u32>,
    pub should_ghost: Option<bool>,
    pub ghost_sequence: Option<Vec<String>>,
    pub options: Option<HashMap<String, String>>,
    pub burst_window_length: Option<u32>,
    pub max_messages_in_burst: Option<u32>,
}

} // verus!
