//! Core of a grid-based raycasting renderer.
//!
//! A rectangular tile grid is projected into a first-person view one screen
//! column at a time: for each column a ray is walked through the grid with a
//! DDA (digital differential analyzer) until it meets a solid cell, and the
//! perpendicular distance of that hit turns into a vertical wall slice.
//!
//! All geometry is carried in fixed-point arithmetic with [`fixed::FP_ONE`]
//! units per grid cell, so every function here is exact integer computation
//! with a verified contract.  Window handling, input polling and pixel
//! presentation live outside this crate; they only exchange plain values
//! with it.

pub mod agent;
pub mod fixed;
pub mod gfx;
pub mod grid;
pub mod raycast;
pub mod render;
