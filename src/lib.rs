pub mod atlas;
pub mod layout;
pub mod plugin;
pub mod tracker;
