pub mod auth_modal;
pub mod batch_translation;
pub mod bilingual_display;
pub mod file_name_preview;
pub mod notification;
pub mod view_mode;
