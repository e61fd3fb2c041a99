//! Rah: project discovery, tool requirements and environment rendering,
//! with the decisions of the tool manager proved against their contracts.

pub mod commands;
pub mod config;
pub mod detection;
pub mod document;
pub mod project;
pub mod string_map;
pub mod text;
pub mod tools;
