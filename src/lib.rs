//! Converts a bread formula in baker's percentages, with an optional
//! pre-fermented starter, into absolute ingredient weights.
//!
//! All quantities are integers. A fraction is held in millionths of one
//! whole (`percent::ONE`), a raw percentage in hundredths of a percent, and a
//! weight in thousandths of the recipe's mass unit.
use vstd::prelude::*;

pub mod percent;
pub mod ingredients;
pub mod mix;
pub mod starter;
pub mod redistribution;
pub mod dough_spec;
pub mod recipe;
pub mod laws;
