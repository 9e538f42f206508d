//! Core algorithms for fixed-width terminal text layout: measuring how many
//! terminal cells a piece of Unicode text occupies, rendering text at an exact
//! cell width, splitting text into width-bounded chunks, and apportioning an
//! integer amount of space among weighted layout slots.

pub mod cache;
pub mod cell_widths;
pub mod cells;
pub mod measure;
pub mod ratio;
