//! Command ids.

use uuid::Uuid;
use vstd::prelude::*;

use crate::text;

verus! {

/// Whether a character is a lowercase hexadecimal digit.
pub open spec fn lower_hex(c: char) -> bool {
    '0' <= c <= '9' || 'a' <= c <= 'f'
}

/// Whether a text is an id: four lowercase hexadecimal digits.
pub open spec fn is_id(s: Seq<char>) -> bool {
    s.len() == 4 && forall|i: int| 0 <= i < 4 ==> lower_hex(#[trigger] s[i])
}

/// Whether a text is a random UUID in its hyphenated form: lowercase hexadecimal
/// digits in groups of 8, 4, 4, 4 and 12, of which the third begins with the version.
pub open spec fn is_uuid(s: Seq<char>) -> bool {
    &&& s.len() == 36
    &&& forall|i: int|
        0 <= i < 36 ==> if i == 8 || i == 13 || i == 18 || i == 23 {
            s[i] == '-'
        } else {
            lower_hex(#[trigger] s[i])
        }
    &&& s[14] == '4'
}

/// A random UUID in its hyphenated form, from `uuid::Uuid::new_v4` and its
/// `Display`. The contract claims the form only, since the digits are random.
#[verifier::external_body]
fn random_uuid() -> (r: String)
    ensures
        is_uuid(r@),
{
    Uuid::new_v4().to_string()
}

/// The id that a UUID gives: its first four characters.
pub fn short_id(uuid: &str) -> (r: String)
    ensures
        r@ == text::first_chars(uuid@, 4),
{
    text::take_chars(uuid, 4)
}

/// A fresh 4-character id.
///
/// Short enough to read aloud and to type, long enough for a log that one person
/// fills by hand. A collision is refused by the log, not by this function.
pub fn new_id() -> (r: String)
    ensures
        is_id(r@),
{
    let uuid = random_uuid();
    short_id(uuid.as_str())
}

/// An id is four characters, each a digit or one of the letters from a to f.
pub proof fn law_ids_are_four_hexadecimal_digits(s: Seq<char>)
    ensures
        is_id(s) == (s.len() == 4 && forall|i: int|
            0 <= i < s.len() ==> 48 <= (#[trigger] s[i]) as int <= 57 || 97 <= s[i] as int <= 102),
{
    if is_id(s) {
        assert forall|i: int| 0 <= i < s.len() implies 48 <= (#[trigger] s[i]) as int <= 57 || 97
            <= s[i] as int <= 102 by {
            assert(lower_hex(s[i]));
        }
    }
}

/// A short id is the first four characters of the long one.
pub proof fn law_a_short_id_is_its_beginning(uuid: &str, r: String)
    requires
        call_ensures(short_id, (uuid,), r),
        uuid@.len() >= 4,
    ensures
        r@ == uuid@.take(4),
{
}

} // verus!
