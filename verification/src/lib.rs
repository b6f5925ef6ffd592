//! The decisions of a split-tunnel engine that takes domestic traffic past a full-tunnel VPN: which
//! adapter faces the internet, which routes to write and remove, which name resolution policy to
//! put into force, how a connectivity test is judged, and what is said and logged on the way.
//!
//! Nothing here talks to the system. A program reads tables, keys and files, hands them over as
//! plain values, and does what the results say.
pub mod text;
pub mod decimal;
pub mod ipv4;
pub mod utf8;
pub mod utf16;
pub mod cidr;
pub mod order;
pub mod adapter;
pub mod search;
pub mod route;
pub mod nrpt;
pub mod connectivity;
pub mod log;
pub mod messages;
pub mod enable;
pub mod cli;
