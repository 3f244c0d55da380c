//! A verified simulator for the diffusion of air, water and fire over a
//! rectangular grid of tiles.
//!
//! Every tick replaces the quantities of each cell by the mean over the
//! cell itself and its orthogonal neighbours inside the grid, as they were
//! before the tick.
//!
//! - [`extent`] numbers the cells of a grid.
//! - [`stencil`] scans the grid for the cells that take part in the mean of
//!   a target cell.
//! - [`layer`] makes the pass over the grid: it takes the values of the
//!   cells in a type of the caller's and adds and divides them by functions
//!   of the caller.
//! - [`grid`] holds the quantities as unsigned fixed-point numbers and
//!   makes the pass with the arithmetic of [`exact`], so that its tick is
//!   the mean that [`mean`] defines, rounded down.
//! - [`snapshot`] puts cells that come with their positions, in any order,
//!   into their places.
//! - [`laws`] states what holds of every grid and every tick.

pub mod cell;
pub mod error;
pub mod exact;
pub mod extent;
pub mod grid;
pub mod laws;
pub mod layer;
pub mod mean;
pub mod snapshot;
pub mod stencil;
