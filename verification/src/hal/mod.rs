//! Hardware abstractions above the architecture layer.
pub mod keyboard;
pub mod serial;
