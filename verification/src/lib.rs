pub mod app;
pub mod builder;
pub mod cli;
pub mod markdown;
pub mod model;
pub mod parser;
pub mod render;
pub mod strings;
