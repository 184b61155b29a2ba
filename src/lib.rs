//! Install-and-launch engine of a game-instance manager: version metadata
//! resolution, download planning and retry policy, Maven/classpath resolution,
//! install-state tracking, launch argument assembly and a package dependency
//! resolver with its per-instance install registry.

pub mod text;
pub mod rules;
pub mod maven;
pub mod config;
pub mod versions;
pub mod launch;
pub mod classpath;
pub mod install;
pub mod download;
pub mod instance;
pub mod catalog;
pub mod packages;
pub mod session;
pub mod cache;
pub mod process;
