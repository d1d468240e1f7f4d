pub mod config;
pub mod direction;
pub mod editor;
pub mod input;
pub mod menu;
pub mod motion;
pub mod world;
