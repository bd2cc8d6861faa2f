//! A sparse grid engine: a cell store keyed by signed coordinates, with
//! ordered range enumeration and occupancy queries for rendering.

pub mod cell;
pub mod controller;
pub mod json;
pub mod laws;
pub mod pos;
pub mod sheet;
