pub mod use_batch_translation;
pub mod use_translation;
pub mod use_auth;
