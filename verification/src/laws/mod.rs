//! Laws of loading: what holds of every load, across the functions that it is made of.

pub mod copies;
pub mod events;
mod lists;
pub mod loads;
pub mod logs;
pub mod plans;
pub mod results;
pub mod threads;
pub mod usage;
pub mod workers;
