//! Turns an application source tree into a validated build plan and an
//! ordered sequence of container build instructions.
pub mod assemble;
pub mod builder;
pub mod cache;
pub mod config;
pub mod error;
pub mod plan;
pub mod render;
pub mod provider;
pub mod session;
pub mod source;
pub mod text;
