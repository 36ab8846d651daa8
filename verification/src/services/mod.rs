pub mod api_client;
pub mod batch_service;
pub mod config_service;
pub mod file_naming_service;
pub mod deeplx_service;
pub mod history_service;
pub mod jina_service;
pub mod content_processor;
pub mod preview_service;
pub mod rate_limiter;
pub mod file_name_shape;
