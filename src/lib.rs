pub mod point;
pub mod orientation;
pub mod tetrimino;
pub mod catalog;
pub mod board;
pub mod ordering;
pub mod transition;
pub mod physics;
pub mod chooser;
pub mod generator;
pub mod game_core;
pub mod adjust;
pub mod driver_core;
pub mod rules;
pub mod progress;
pub mod recording;
pub mod recording_manager;
