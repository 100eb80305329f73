//! A local control-plane for language-model backends: a registry of loaded
//! models with cascading load/unload, a supervised log fan-out for the
//! processes backing them, and the routing rules used to proxy requests to
//! whichever backend serves a requested alias.

pub mod api;
pub mod cli;
pub mod commands;
pub mod config;
pub mod json;
pub mod models;
pub mod text;
