//! Explains how the name-service switch resolves a host, user or group name:
//! the sources are consulted in their configured order, and every consultation
//! is recorded in a decision trace that stops at the first match.

pub mod cli;
pub mod decision_tree;
pub mod group;
pub mod host_run;
pub mod hosts;
pub mod namespaces;
pub mod nsswitch;
pub mod orchestrator;
pub mod passwd;
pub mod render;
pub mod resolution;
pub mod resolv_conf;
pub mod text;
