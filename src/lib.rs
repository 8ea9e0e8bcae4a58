//! Game-state core of a small arcade game: a player car dodges or rams enemy
//! cars that spawn on a timer and on mouse clicks; each hit scores a point.
//!
//! Time is counted in microseconds and positions in micro-units of the play
//! field, so the whole update loop runs on integers.
pub mod labels;
pub mod timer;
pub mod scene;
pub mod game;
pub mod laws;
