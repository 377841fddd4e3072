//! A dimension-generic explicit finite-difference solver for the scalar wave
//! equation `u_tt = sum_i u_xx_i` on a regular Cartesian grid over the cube
//! `[-1, 1]^D`, for `D` in 1..=4.
//!
//! Field values are fixed-point numbers: an `i64` value `v` stands for the
//! real number `v / SCALE` (see the `fixed` module).  All grid bookkeeping,
//! the Gaussian initial condition, the leapfrog / diffusion stencil updates
//! and the simulation driver are verified; rendering and encoding of the
//! emitted frames are left to unverified collaborators outside this crate.

pub mod driver;
pub mod fixed;
pub mod grid;
pub mod index;
pub mod init;
pub mod integrator;
