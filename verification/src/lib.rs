//! SpaceOne flight-software core: watchdog, memory protection, priorities,
//! security primitives, planning and diagnostics, with their contracts.

pub mod access_control;
pub mod auth;
pub mod auth_service;
pub mod bridge;
pub mod clock;
pub mod compression;
pub mod command_relay;
pub mod conflict_resolver;
pub mod contingency_planner;
pub mod crew_decision;
pub mod diagnostics;
pub mod dsn;
pub mod encryption;
pub mod entropy;
pub mod hal;
pub mod hashing;
pub mod health;
pub mod priority_bundle;
pub mod prioritizer;
pub mod processing;
pub mod rbac;
pub mod recovery;
pub mod science;
pub mod security;
pub mod signing;
pub mod snapshot;
pub mod store_forward;
pub mod supervisor;
pub mod tasks;
pub mod text;
pub mod memory_controller;
pub mod message_types;
pub mod negotiation;
pub mod power;
pub mod watchdog;
