//! Quota tray: the verified core of a system-tray quota monitor.

pub mod activation;
pub mod burn;
pub mod config;
pub mod fetch;
pub mod icon;
pub mod instance;
pub mod json;
pub mod keyring;
pub mod lock;
pub mod menu;
pub mod natural;
pub mod network;
pub mod notify;
pub mod orchestrator;
pub mod parse;
pub mod portal_openuri;
pub mod pricing;
pub mod provider;
pub mod ratio;
pub mod refresh;
pub mod render;
pub mod scheduler;
pub mod screenlock;
pub mod sni;
pub mod state;
pub mod text;
pub mod tray;
pub mod util;
