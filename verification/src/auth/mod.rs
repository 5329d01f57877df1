//! Two auth postures on one hostname.
//!
//! | Routes        | Gate                                                | Module      |
//! |---------------|-----------------------------------------------------|-------------|
//! | `/`, `/api/*` | Cloudflare Access assertion for an allowed email    | [`access`]  |
//! | `/hook`       | static `Authorization` header on a configured list  | [`token`]   |
//! | `/health`     | open, the only one                                  | [`is_open_path`] |
//!
//! Both gates fail closed: an unset audience or an empty token list refuses every
//! request on its side rather than falling through to open. They also fail
//! independently.

pub mod access;
pub mod token;

use vstd::prelude::*;

use crate::text;

verus! {

/// The one path served without any gate. An exact match, so `/health/` and
/// `/healthz` are still gated.
pub fn is_open_path(path: &str) -> (r: bool)
    ensures
        r == (path@ == "/health"@),
{
    text::same(path, "/health")
}

} // verus!
