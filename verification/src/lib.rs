//! Verified core of pktctl, a Model Context Protocol server for Cisco Packet
//! Tracer: the text, addressing, cabling, catalog, IPC API and workspace rules
//! that decide what the tools send to Packet Tracer and what they answer.
pub mod text;
pub mod order;
pub mod error;
pub mod activity;
pub mod links;
pub mod terminal;
pub mod devices;
pub mod web;
pub mod cli;
pub mod desktop;
pub mod net;
pub mod hosts;
pub mod firewall;
pub mod describe;
pub mod tree;
pub mod places;
pub mod workspace;
pub mod simulation;
pub mod preferences;
pub mod setup;
pub mod watch;
pub mod vpn;
pub mod wireless;
pub mod services;
pub mod modules;
pub mod catalog;
pub mod ipv6;
pub mod power;
pub mod status;
pub mod host_console;
pub mod config;
pub mod capture;
pub mod ipc;
