pub mod backend;
pub mod bytes;
pub mod commands;
pub mod config;
pub mod convert;
pub mod editor;
pub mod file_map;
pub mod git;
pub mod gitlab;
pub mod ignore;
pub mod message;
pub mod number;
pub mod paths;
pub mod refresh;
pub mod text;
