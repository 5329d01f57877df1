//! What a JSON object holds under a key, as `serde_json` reads it.

use serde_json::Value;
use vstd::prelude::*;

use crate::text;

verus! {

/// The string that a JSON text holds under a key, if it is an object that has one
/// there.
pub uninterp spec fn string_member_of(json: Seq<char>, key: Seq<char>) -> Option<Seq<char>>;

/// Whether the first character of a JSON text that is not white space opens an
/// object.
pub open spec fn opens_object(s: Seq<char>) -> bool
    decreases s.len(),
{
    if s.len() > 0 && (s[0] == ' ' || s[0] == '\n' || s[0] == '\t' || s[0] == '\r') {
        opens_object(s.skip(1))
    } else {
        s.len() > 0 && s[0] == '{'
    }
}

/// The string under a key of a JSON object, from `serde_json::from_str`,
/// `serde_json::Value::get` and `serde_json::Value::as_str`; `None` where the
/// text is no JSON, no object, or has no string there. The contract names the
/// result and claims that only a text that opens an object has one.
#[verifier::external_body]
pub(crate) fn string_member(json: &str, key: &str) -> (r: Option<String>)
    ensures
        text::opt_view(r) == string_member_of(json@, key@),
        !opens_object(json@) ==> r is None,
{
    let value = serde_json::from_str::<Value>(json).ok()?;
    value.get(key)?.as_str().map(str::to_string)
}

/// A text opens an object where a brace is the first of it but for blanks, line ends and
/// tabs.
pub proof fn law_opens_object(a: Seq<char>, c: char, rest: Seq<char>)
    requires
        forall|i: int|
            0 <= i < a.len() ==> (#[trigger] a[i] == ' ' || a[i] == '\n' || a[i] == '\t' || a[i]
                == '\r'),
        c != ' ' && c != '\n' && c != '\t' && c != '\r',
    ensures
        opens_object(a + seq![c] + rest) == (c == '{'),
        !opens_object(a),
    decreases a.len(),
{
    let s = a + seq![c] + rest;
    if a.len() > 0 {
        let t = a.skip(1);
        assert forall|i: int| 0 <= i < t.len() implies (#[trigger] t[i] == ' ' || t[i] == '\n'
            || t[i] == '\t' || t[i] == '\r') by {
            assert(a[i + 1] == ' ' || a[i + 1] == '\n' || a[i + 1] == '\t' || a[i + 1] == '\r');
        }
        law_opens_object(t, c, rest);
        assert(s.skip(1) =~= t + seq![c] + rest);
        assert(a[0] == ' ' || a[0] == '\n' || a[0] == '\t' || a[0] == '\r');
    }
}

} // verus!
