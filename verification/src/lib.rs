pub mod text;
pub mod order;
pub mod paths;
pub mod command;
pub mod modes;
pub mod config;
pub mod report;
pub mod cli;
pub mod pkgbuild;
pub mod pkgbuild_laws;
pub mod deps;
pub mod install;
pub mod git;
pub mod repo;
pub mod system;
pub mod maintenance;
pub mod builds;
