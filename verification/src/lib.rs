//! Seats arranged in a grid: the grid itself and its shuffle, the layout that
//! maps a grid onto a screen rectangle, and the state of the interactive
//! display that shows it.

pub mod app;
pub mod deal;
pub mod event;
pub mod frame;
pub mod layout;
mod random;
pub mod scene;
pub mod seat;
