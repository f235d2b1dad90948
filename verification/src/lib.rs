//! Declarative control of Cloudflare DNS records and Nginx Proxy Manager hosts.

pub mod address;
pub mod address_laws;
pub mod api;
pub mod cert_provider;
pub mod config;
pub mod dns_provider;
pub mod entry;
pub mod json;
pub mod logging;
pub mod order;
pub mod paths;
pub mod prompt;
pub mod proxy_provider;
pub mod reconciler;
pub mod service_edit_laws;
pub mod services;
pub mod sorted_map;
pub mod table;
pub mod text;
pub mod text_laws;
pub mod version;
pub mod wording_laws;
