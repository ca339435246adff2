pub mod component;
pub mod entity;
pub mod event;
pub mod input;
pub mod resource;
