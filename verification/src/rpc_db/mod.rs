//! Databases that answer what execution asks, and that record what was asked.

pub mod basic;
pub mod db;
pub mod error;
pub mod execution_witness;
pub mod state;
