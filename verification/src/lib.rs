//! A small TCP/IP network stack: interfaces, address autoconfiguration, a
//! DHCPv4 server, raw sockets and TCP listeners.

pub mod config;
pub mod driver;
pub mod iface;
pub mod lists;
pub mod ping;
pub mod raw;
pub mod raw_laws;
pub mod route;
pub mod stack;
pub mod stack_laws;
pub mod storage;
pub mod tcp;
pub mod time;
pub mod waker;
pub mod wire;
