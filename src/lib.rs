//! Core of a programmable DNS forwarding proxy: configuration model, matcher
//! chains, rule index, quick wire-format parsing and the decision engine.
pub mod config;
pub mod chain;
pub mod text;
pub mod net;
pub mod quick;
pub mod message;
pub mod matcher;
pub mod runtime;
pub mod index;
pub mod engine;
