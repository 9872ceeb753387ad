//! Verified core of a GDSII / OASIS layout viewer.

pub mod app;
pub mod camera;
pub mod config;
pub mod coords;
pub mod counters;
pub mod error;
pub mod hierarchy;
pub mod hierarchy_laws;
pub mod io;
pub mod layers;
pub mod layout;
pub mod perf;
pub mod persistence;
pub mod renderer;
pub mod scene;
pub mod scene_laws;
pub mod seqs;
pub mod ui;
pub mod view_builder;
pub mod workset;
