//! Decision logic of a local MITM + domain-fronting proxy: which hosts are
//! fronted and how, HTTP head framing and rewriting, the SOCKS5 handshake,
//! response body relaying, and the small bookkeeping structures around them.

pub mod bindings;
pub mod cli;
pub mod config;
pub mod handles;
pub mod http;
pub mod logs;
pub mod mitm;
pub mod pki;
pub mod probe;
pub mod proxy_server;
pub mod relay;
pub mod socks;
pub mod text;

pub use config::MmdfConfig;
pub use proxy_server::ProxyServer;
