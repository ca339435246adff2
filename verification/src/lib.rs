//! Entity bookkeeping, component state and resource tables of a small
//! solar-system viewer engine, with their contracts proved by Verus.

pub mod components;
pub mod entity;
pub mod gui_backend;
pub mod managers;
pub mod text;
