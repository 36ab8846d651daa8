pub mod app_error;
pub mod error_handler;
