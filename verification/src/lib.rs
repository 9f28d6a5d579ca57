//! A terminal project and task manager's core: an entity store, sorted
//! selection lists over it, and a stack of modal prompts driven by key events.

pub mod model;
pub mod order;
pub mod prompts;
pub mod app;
pub mod explorer;
pub mod input;
pub mod keys;
pub mod layout;
pub mod load;
pub mod repository;
pub mod text;
