//! Verified core of the Vapor sync daemon.
#![allow(unused_imports)]
#![allow(unused_parens)]

pub mod app_state;
pub mod auto_tune;
pub mod bootstrap;
pub mod build_info;
pub mod clock;
pub mod config;
pub mod config_document;
pub mod conflict;
pub mod continuations;
pub mod debounce;
pub mod effects;
pub mod event_intents;
pub mod executor;
pub mod fs_events;
pub mod globs;
pub mod hashing;
pub mod ipc_server;
pub mod ipc_service;
pub mod local_apply;
pub mod metrics;
pub mod multi_runtime;
pub mod name_collision;
pub mod path_filter;
pub mod path_map;
pub mod paths;
pub mod planner;
pub mod profiles;
pub mod provider_jobs;
pub mod reconcile;
pub mod records;
pub mod routes;
pub mod runtime_control;
pub mod safeguards;
pub mod scheduler;
pub mod settling;
pub mod storm;
pub mod text;
pub mod timeline;
pub mod tracker;
pub mod workgate;
