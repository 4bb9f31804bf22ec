//! Verified routing and request-preparation core of Switchyard.
pub mod text;
pub mod json;
pub mod reasoning_policy;
pub mod error;
pub mod request;
pub mod decimal;
pub mod resource;
pub mod fleet_router;
pub mod backend;
pub mod body;
pub mod headers;
pub mod retry;
pub mod client;
pub mod assoc;
pub mod cache;
pub mod comfy;
pub mod facts_config;
pub mod capability;
pub mod runner;
