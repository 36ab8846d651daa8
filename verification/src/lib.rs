pub mod archive;
pub mod clock;
pub mod components;
pub mod config;
pub mod error;
pub mod hooks;
pub mod ids;
pub mod num;
pub mod pages;
pub mod services;
pub mod text;
pub mod theme;
pub mod types;
pub mod urls;
