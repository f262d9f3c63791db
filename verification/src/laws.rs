//! Properties that span several functions or several calls.

pub mod accounting;
pub mod assembly;
pub mod clocks;
pub mod combining;
pub mod delivery;
pub mod device;
pub mod frames;
pub mod order;
pub mod parsing;
pub mod placement;
pub mod run;
pub mod silence;
pub mod steady;
pub mod worker;
