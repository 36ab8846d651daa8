pub mod history;
pub mod projects;
pub mod settings;
