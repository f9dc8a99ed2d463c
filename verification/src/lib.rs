pub mod listing;
pub mod manager;
pub mod progress;
pub mod remote;
pub mod text;
