//! Decision logic of a node agent that runs pods on a Docker-compatible daemon.

pub mod api;
pub mod cni;
pub mod container;
pub mod daemon;
pub mod disk;
pub mod dns;
pub mod downward;
pub mod env;
pub mod expand;
pub mod files;
pub mod gc;
pub mod holder;
pub mod hosts;
pub mod image;
pub mod ip;
pub mod launch;
pub mod lifecycle;
pub mod metrics;
pub mod mounts;
pub mod names;
pub mod number;
pub mod pod;
pub mod ports;
pub mod probe;
pub mod quantity;
pub mod resync;
pub mod runtime;
pub mod sandbox;
pub mod security;
pub mod shell;
pub mod starting;
pub mod status;
pub mod stop;
pub mod text;
pub mod time;
pub mod token;
pub mod upkeep;
pub mod volumes;
