pub mod text;
pub mod deeplink;
pub mod json;
pub mod request;
pub mod patches;
pub mod feed;
pub mod endpoints;
pub mod theme_files;
pub mod fetch;
pub mod reauth;
