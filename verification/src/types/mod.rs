pub mod history;
pub mod api_types;
