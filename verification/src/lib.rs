use vstd::prelude::*;

pub mod accounts;
pub mod config;
pub mod encoding;
pub mod http;
pub mod json;
pub mod kv;
pub mod password;
pub mod response;
pub mod session;
pub mod sites;
pub mod text;

verus! {
}
