pub mod arith;
pub mod engine;
pub mod harness;
pub mod image;
pub mod laws;
pub mod layout;
pub mod loader;
pub mod memory;
pub mod observer;
pub mod session;
