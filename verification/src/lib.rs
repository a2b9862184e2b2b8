//! Write path of the harmonic archive format.

pub mod action;
pub mod container;
pub mod error;
pub mod event;
pub mod layout;
pub mod lifecycle;
pub mod naming;
pub mod protocol;
pub mod session;
pub mod writer;
