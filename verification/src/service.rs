//! The operations that a service around one trust graph offers to other peers.

pub mod dto;
pub mod error;
pub mod misc;
pub mod results;
pub mod service_api;
pub mod service_impl;
