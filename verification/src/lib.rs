//! Document photographs: the verified core of cropping, masking, sheet
//! layout and printing.
//!
//! Everything that decides which pixel ends up where, and every check that
//! gates a print, lives here with its contract.

pub mod print;
pub mod mask;
pub mod render;
pub mod resample;
pub mod layout;
pub mod text;
pub mod overrides;
pub mod rules;
pub mod spec;
pub mod calibration;
pub mod store;
pub mod presets;
pub mod commands;
pub mod background;
pub mod vision;
pub mod face;
