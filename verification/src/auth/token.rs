//! The `/hook` gate: a static `Authorization` header matched against a configured
//! list.
//!
//! * **Fail closed.** An empty list rejects everything. There is no list that
//!   leaves the route open.
//! * **Constant-time compare of the whole header value.** The configured entries
//!   are full header values, scheme included. Splitting on the scheme would
//!   accept a token under a different scheme, and an ordinary comparison would
//!   leak the secret a byte at a time.
//!
//! A list rather than a single value, so that a token can be rotated without a
//! window where the ring is locked out.

use subtle::ConstantTimeEq;
use vstd::prelude::*;

use crate::text;

verus! {

/// The other header that may carry the token. Same list, same compare.
pub const ALT_TOKEN_HEADER: &'static str = "x-widget-token";

/// Compares the bytes of two texts with `subtle::ConstantTimeEq::ct_eq` for byte
/// slices, in time that depends on their lengths only. The contract claims that
/// the result is 1 where the texts are the same, and 0 where they are not.
#[verifier::external_body]
fn ct_same(a: &str, b: &str) -> (r: u8)
    ensures
        r == (if a@ == b@ {
            1u8
        } else {
            0u8
        }),
{
    a.as_bytes().ct_eq(b.as_bytes()).unwrap_u8()
}

/// Whether a header value is on the list. An empty value never is.
pub open spec fn listed(header: Option<Seq<char>>, allowed: Seq<Seq<char>>) -> bool {
    match header {
        Some(h) => h.len() > 0 && allowed.contains(h),
        None => false,
    }
}

/// Does this `Authorization` header value name an accepted token?
///
/// `header` is the entire header value, compared with each entry of the list.
/// Empty entries are skipped, so a stray one cannot become a password that every
/// request already knows. The loop runs to completion instead of returning on the
/// first hit: an early exit would tell which entry is live.
pub fn token_ok(header: Option<&str>, allowed: &[String]) -> (r: bool)
    ensures
        r == listed(text::opt_str(header), text::views(allowed@)),
{
    let header = match header {
        Some(h) => h,
        None => return false,
    };
    if header.is_empty() {
        return false;
    }
    let ghost all = text::views(allowed@);
    let mut hit: u8 = 0;
    let mut i: usize = 0;
    while i < allowed.len()
        invariant
            i <= allowed@.len(),
            header@.len() > 0,
            all == text::views(allowed@),
            hit == 0 || hit == 1,
            (hit == 1) == (exists|j: int| 0 <= j < i && #[trigger] all[j] == header@),
        decreases allowed@.len() - i,
    {
        assert(all[i as int] == allowed@[i as int]@);
        if !allowed[i].as_str().is_empty() {
            let same: u8 = ct_same(allowed[i].as_str(), header);
            let before: u8 = hit;
            hit = hit | same;
            assert(before | same == (if before == 1 || same == 1 {
                1u8
            } else {
                0u8
            })) by (bit_vector)
                requires
                    before == 0 || before == 1,
                    same == 0 || same == 1,
            ;
        }
        i = i + 1;
    }
    hit == 1
}

/// Why a request is refused, for the log. The caller is told nothing.
#[derive(Debug, Clone, Copy, PartialEq, Eq, Structural)]
pub enum Verdict {
    /// The request passes.
    Pass,
    /// No tokens are configured, so every request is refused.
    NoTokens,
    /// Neither header is there.
    NoHeader,
    /// A header is there, and its value is not on the list.
    NotListed,
}

/// The verdict on a request.
pub open spec fn verdict(
    presented: Option<Seq<char>>,
    alt: Option<Seq<char>>,
    allowed: Seq<Seq<char>>,
) -> Verdict {
    if listed(presented, allowed) || listed(alt, allowed) {
        Verdict::Pass
    } else if allowed.len() == 0 {
        Verdict::NoTokens
    } else if presented is None && alt is None {
        Verdict::NoHeader
    } else {
        Verdict::NotListed
    }
}

/// Pass a request whose `Authorization` or `X-Widget-Token` header, as far as it
/// could be read, is on the list, and refuse everything else.
pub fn require_token(presented: Option<&str>, alt: Option<&str>, allowed: &[String]) -> (r:
    Verdict)
    ensures
        r == verdict(text::opt_str(presented), text::opt_str(alt), text::views(allowed@)),
{
    if token_ok(presented, allowed) || token_ok(alt, allowed) {
        return Verdict::Pass;
    }
    if allowed.len() == 0 {
        Verdict::NoTokens
    } else if presented.is_none() && alt.is_none() {
        Verdict::NoHeader
    } else {
        Verdict::NotListed
    }
}

/// An empty list passes nothing, whatever a request presents, and neither does a
/// list of empty entries.
pub proof fn law_an_empty_list_refuses_everything(
    presented: Option<Seq<char>>,
    alt: Option<Seq<char>>,
    allowed: Seq<Seq<char>>,
)
    requires
        forall|i: int| 0 <= i < allowed.len() ==> (#[trigger] allowed[i]).len() == 0,
    ensures
        verdict(presented, alt, allowed) != Verdict::Pass,
{
}

/// A request passes exactly if it presents an entry of the list that is not
/// empty, in either header. Each entry works, so a token can be rotated, and a
/// value that is no entry, a part of one included, does not.
pub proof fn law_only_listed_tokens_pass(
    presented: Option<Seq<char>>,
    alt: Option<Seq<char>>,
    allowed: Seq<Seq<char>>,
)
    ensures
        (verdict(presented, alt, allowed) == Verdict::Pass) == (exists|i: int|
            0 <= i < allowed.len() && (#[trigger] allowed[i]).len() > 0 && (presented == Some(
                allowed[i],
            ) || alt == Some(allowed[i]))),
{
    if listed(presented, allowed) {
        let i = choose|i: int| 0 <= i < allowed.len() && allowed[i] == presented->0;
        assert(allowed[i].len() > 0);
    }
    if listed(alt, allowed) {
        let i = choose|i: int| 0 <= i < allowed.len() && allowed[i] == alt->0;
        assert(allowed[i].len() > 0);
    }
}

/// A request that does not pass is told apart: nothing configured, no header at all, or
/// headers that are on no list.
pub proof fn law_a_refusal_says_why(
    presented: Option<Seq<char>>,
    alt: Option<Seq<char>>,
    allowed: Seq<Seq<char>>,
)
    requires
        forall|i: int|
            0 <= i < allowed.len() ==> presented != Some(#[trigger] allowed[i]) && alt != Some(
                allowed[i],
            ),
    ensures
        allowed.len() == 0 ==> verdict(presented, alt, allowed) == Verdict::NoTokens,
        allowed.len() > 0 && presented is None && alt is None ==> verdict(presented, alt, allowed)
            == Verdict::NoHeader,
        allowed.len() > 0 && (presented is Some || alt is Some) ==> verdict(presented, alt, allowed)
            == Verdict::NotListed,
{
}

/// A header value is compared whole: with any entry of the list, and with nothing less
/// than all of it.
pub proof fn law_a_token_is_on_the_list_whole(h: Seq<char>, allowed: Seq<Seq<char>>)
    ensures
        listed(Some(h), allowed) == (h.len() > 0 && exists|i: int|
            0 <= i < allowed.len() && #[trigger] allowed[i] == h),
        !listed(None, allowed),
{
}

/// A request passes with any token of the list, in either header, and with nothing else.
pub proof fn law_any_token_of_the_list_passes(
    presented: Option<&str>,
    alt: Option<&str>,
    allowed: &[String],
    r: Verdict,
)
    requires
        call_ensures(require_token, (presented, alt, allowed), r),
    ensures
        ALT_TOKEN_HEADER@ == "x-widget-token"@,
        (r == Verdict::Pass) == (exists|i: int|
            0 <= i < allowed@.len() && (#[trigger] allowed@[i])@.len() > 0 && ((presented matches Some(
                h,
            ) && h@ == allowed@[i]@) || (alt matches Some(h) && h@ == allowed@[i]@))),
{
    let list = text::views(allowed@);
    let a = text::opt_str(presented);
    let b = text::opt_str(alt);
    law_only_listed_tokens_pass(a, b, list);
    if r == Verdict::Pass {
        let i = choose|i: int|
            0 <= i < list.len() && (#[trigger] list[i]).len() > 0 && (a == Some(list[i]) || b
                == Some(list[i]));
        assert(list[i] == allowed@[i]@);
    }
    if exists|i: int|
        0 <= i < allowed@.len() && (#[trigger] allowed@[i])@.len() > 0 && ((presented matches Some(
            h,
        ) && h@ == allowed@[i]@) || (alt matches Some(h) && h@ == allowed@[i]@)) {
        let i = choose|i: int|
            0 <= i < allowed@.len() && (#[trigger] allowed@[i])@.len() > 0 && ((
            presented matches Some(h) && h@ == allowed@[i]@) || (alt matches Some(h) && h@
                == allowed@[i]@));
        assert(list[i] == allowed@[i]@);
    }
}

} // verus!
