use vstd::prelude::*;

pub mod analyzer;
pub mod audio;
pub mod axis_maps;
pub mod cases;
pub mod coordinates;
pub mod discretization;
pub mod display;
pub mod laws;
pub mod models;
pub mod music;
pub mod pipeline;
pub mod playback;
pub mod session;
pub mod text;
