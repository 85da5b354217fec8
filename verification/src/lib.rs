//! Linux host monitoring.

pub mod browser;
pub mod cli;
pub mod clock;
pub mod collector;
pub mod cpu;
pub mod disk;
pub mod exposition;
pub mod gateway;
pub mod gpu;
pub mod hwmon;
pub mod list;
pub mod memory;
pub mod metrics;
pub mod network;
pub mod number;
pub mod nvme;
pub mod order;
pub mod path;
pub mod power_supply;
pub mod process;
pub mod scrape;
pub mod screen;
pub mod selection;
pub mod server;
pub mod snapshot;
pub mod table;
pub mod text;
pub mod ui;
