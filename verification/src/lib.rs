//! Verified core of the Nastalli kernel: task table and round-robin scheduler,
//! physical frame allocation over the boot memory map, scancode decoding,
//! interrupt-controller and timer arithmetic, and the layout of freshly
//! prepared execution frames. Privileged instructions, port I/O and the boot
//! entry live outside this crate.
pub mod abi;
pub mod arch;
pub mod hal;
pub mod kernel;
pub mod tools;
