//! Verified core of a VLESS + REALITY desktop VPN client: share-link
//! parsing and formatting, xray client configuration, corporate-VPN route
//! analysis, server list and subscription bookkeeping, the connection
//! state machine, the system-proxy settings, the TUN-mode helper plans and
//! the privileged (sudo) helpers.
use vstd::prelude::*;

pub mod text;
pub mod models;
pub mod uri;
pub mod roundtrip;
pub mod network;
pub mod subscription;
pub mod json;
pub mod config;
pub mod xray;
pub mod commands;
pub mod proxy;
pub mod secret_store;
pub mod tun;
pub mod priv_xray;
pub mod macos_xray;
pub mod macos_helper;
pub mod tray;
