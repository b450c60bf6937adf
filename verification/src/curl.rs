//! Requests as cURL commands, both ways: `to_curl` writes one, `from_curl` reads
//! one.
pub use crate::curl_error::CurlError;
pub use crate::curl_parse::{base64_encode, from_curl, lift_query, split_header, strip_prompt, urlencode_data};
pub use crate::curl_render::{build_url, curl_command, to_curl};
pub use crate::shell::{shell_quote, tokenize};
