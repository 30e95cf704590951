//! Local control server and RPC relay for a remote torrent-daemon GUI:
//! response inspection, proxy planning, CORS synthesis, the argument
//! hand-off latch and the background poller's decisions.

pub mod cache;
pub mod commands;
pub mod createtorrent;
pub mod geoip;
pub mod http;
pub mod integrations;
pub mod ipc;
pub mod macos;
pub mod poller;
pub mod proxy;
pub mod server;
