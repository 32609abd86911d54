//! Verified core logic of a FreeBSD administration service.
use vstd::prelude::*;

pub mod text;
pub mod num;
pub mod error;
pub mod network;
pub mod ifaddrs;
pub mod ifconfig;
pub mod rcvars;
pub mod netaddr;
pub mod pattern;
pub mod auth;
pub mod debug;
pub mod mod_stubs;
pub mod rcconf;
pub mod rsync;
pub mod smb;
pub mod crontab;
pub mod gateway;
pub mod static_routes;
pub mod resolv;
pub mod ifapply;
pub mod ifupdate;
pub mod accounts;
pub mod audit;
pub mod bhyve;
pub mod files;
pub mod filesystem;
pub mod smart;
pub mod firewall;
pub mod jails;
pub mod jail_conf;
pub mod mail;
pub mod pkg;
pub mod pkg_repo;
pub mod services;
pub mod sysctl;

verus! {
} // verus!
