//! The decisions behind `spin`, a package installer front end for NixOS.

pub mod cli;
pub mod command;
pub mod conf;
pub mod conf_laws;
pub mod conf_reading;
pub mod distance;
pub mod json;
pub mod order;
pub mod plan;
pub mod profile;
pub mod profile_laws;
pub mod reply;
pub mod request;
pub mod search;
pub mod search_laws;
pub mod session;
pub mod session_cases;
pub mod session_install;
pub mod session_laws;
pub mod stream;
pub mod suggest;
pub mod suggest_laws;
pub mod text;
pub mod text_laws;
pub mod validate;
