//! A codec that renders a dynamically typed, host-managed object graph as
//! compact UTF-8 JSON text, and rebuilds compact fixed-width text buffers
//! from decoded character data.

pub mod error;
pub mod escape;
pub mod fmt;
pub mod keys;
pub mod materialize;
pub mod opt;
pub mod render;
pub mod sort;
pub mod value;
