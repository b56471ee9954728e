//! The logic of an image browser and slideshow player.
pub mod app_laws;
pub mod browse;
pub mod cache;
pub mod delegate;
pub mod e2e;
pub mod engine;
pub mod events;
pub mod grid;
pub mod grid_laws;
pub mod key_laws;
pub mod menu;
pub mod order;
pub mod path;
pub mod playlist;
pub mod scan;
pub mod show;
pub mod sidebar;
pub mod slideshow;
pub mod text;
pub mod transfer;
