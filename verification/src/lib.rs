//! Verified core of a self-hosted note-vault server.

pub mod base64_text;
pub mod fs_routes;
pub mod headless_sync;
pub mod index;
pub mod json;
pub mod net;
pub mod paths;
pub mod plugins;
pub mod proxy_routes;
pub mod registry;
pub mod reply;
pub mod settings_routes;
pub mod static_routes;
pub mod strmap;
pub mod text;
pub mod vault_routes;
pub mod ws;
