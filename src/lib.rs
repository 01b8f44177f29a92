//! Shared, bounded caching of browser-impersonating HTTP clients, and the pure parts of
//! sending a request through them: key derivation, method normalisation, and reading
//! headers and cookies back.

pub mod cache;
pub mod cookies;
pub mod key;
pub mod method;
pub mod response;

pub use cache::{get_or_build_client, CachedClient, ClientCache, CLIENT_CACHE_LIMIT};
pub use cookies::parse_cookies;
pub use key::{bucket_timeout, emulation_label, ClientKey};
pub use method::{normalize_method, HttpMethod, UnsupportedMethodError};
pub use response::{first_cookie_header, response_cookies, text_headers, Response};
