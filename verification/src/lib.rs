//! Control plane of a per-root search engine: wire protocol, routing,
//! worker supervision, client recovery and the command line's decisions.

pub mod client;
pub mod codec;
pub mod config;
pub mod ctl;
pub mod ctl_clean;
pub mod ctl_stop;
pub mod disk;
pub mod exclude;
pub mod frontdesk;
pub mod git;
pub mod handlers;
pub mod lifecycle;
pub mod listing;
pub mod master;
pub mod order;
pub mod path;
pub mod pool;
pub mod protocol;
pub mod query;
pub mod registry;
pub mod routing;
pub mod session;
pub mod supervise;
pub mod text;
pub mod text_order;
pub mod types;
pub mod verbs;
pub mod wire;
pub mod worker;
