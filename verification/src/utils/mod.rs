pub mod api_response;

pub mod error_catcher;

pub mod pagination;
