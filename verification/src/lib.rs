//! The decision core of an EtherNet/IP southbound adapter.

pub mod clock;
pub mod config;
pub mod counters;
pub mod device;
pub mod device_metrics;
pub mod eip;
pub mod emit;
pub mod engine;
pub mod health;
pub mod ieee;
pub mod json;
pub mod lifecycle;
pub mod metrics;
pub mod notice;
pub mod observed;
pub mod pause;
pub mod poll;
pub mod poll_driver;
pub mod publish;
pub mod push;
pub mod push_driver;
pub mod reconnect;
pub mod reload;
pub mod rows;
pub mod security_lifecycle;
pub mod sim;
pub mod startup;
pub mod status;
pub mod step;
pub mod text;
pub mod transaction;
