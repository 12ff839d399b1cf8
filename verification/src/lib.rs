//! A daily painting on the desktop: the decisions behind choosing, keeping and
//! hanging it.

use vstd::prelude::*;

pub mod day;
pub mod text;
pub mod paths;
pub mod art;
pub mod config;
pub mod rotation;
pub mod favourites;
pub mod tray;
pub mod desktop;
pub mod cli;
pub mod gallery;
