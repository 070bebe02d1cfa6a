//! Bosun: an API gateway in front of a Frigate NVR. Callers are
//! authenticated by API key, and a default-deny allowlist decides which HTTP
//! method and path each key may reach before the request is proxied.
//!
//! - `config`: the configuration, its allow rules and what they grant;
//! - `glob`: the path glob language of the rules;
//! - `auth`: the access-control decision on a request;
//! - `proxy`: the upstream URL and the headers that are forwarded;
//! - `text`: character-level string helpers.
pub mod auth;
pub mod config;
pub mod glob;
pub mod proxy;
pub mod text;
