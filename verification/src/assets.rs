//! The console's page, with its asset URLs stamped by content hash.
//!
//! A browser that holds an old stylesheet will happily pair it with a fresh page.
//! With a content hash in the query string, new bytes mean a new URL, and a new
//! URL cannot be answered from a cache.

use std::collections::hash_map::DefaultHasher;
use std::hash::Hasher;

use vstd::bytes::{spec_u64_to_le_bytes, u64_to_le_bytes};
use vstd::prelude::*;
use vstd::std_specs::hash::DefaultHasherAdditionalSpecFns;

use crate::text;

verus! {

/// The character of a hexadecimal digit.
pub open spec fn hex_char(d: nat) -> char {
    if d < 10 {
        (48 + d) as char
    } else {
        (87 + d) as char
    }
}

/// `n` in lowercase hexadecimal notation.
pub open spec fn hexadecimal(n: nat) -> Seq<char>
    decreases n,
{
    if n < 16 {
        seq![hex_char(n)]
    } else {
        hexadecimal(n / 16).push(hex_char(n % 16))
    }
}

/// `n` in lowercase hexadecimal notation.
fn hex(n: u64) -> (r: String)
    ensures
        r@ == hexadecimal(n as nat),
    decreases n,
{
    let d: u8 = (n % 16) as u8;
    let c: u8 = if d < 10 {
        48 + d
    } else {
        87 + d
    };
    if n < 16 {
        let mut r = String::new();
        r.push(c as char);
        assert(r@ =~= hexadecimal(n as nat));
        r
    } else {
        let mut r = hex(n / 16);
        r.push(c as char);
        r
    }
}

/// What is hashed of a file: its length, in eight bytes, and its bytes.
pub open spec fn hashed(bytes: Seq<u8>) -> Seq<Seq<u8>> {
    seq![spec_u64_to_le_bytes(bytes.len() as u64), bytes]
}

/// The tag of a file: the hash of it, in hexadecimal.
pub open spec fn tag_of(bytes: Seq<u8>) -> Seq<char> {
    hexadecimal(DefaultHasher::spec_finish(hashed(bytes)) as nat)
}

/// Short content hash of a file: its length, as eight bytes with the lowest first,
/// and its bytes. Not cryptographic: it only has to change when the bytes do.
pub fn asset_tag(bytes: &Vec<u8>) -> (r: String)
    ensures
        r@ == tag_of(bytes@),
        r@ == hexadecimal(
            DefaultHasher::spec_finish(
                seq![spec_u64_to_le_bytes(bytes@.len() as u64), bytes@],
            ) as nat,
        ),
{
    let mut h = DefaultHasher::new();
    let length = u64_to_le_bytes(bytes.len() as u64);
    h.write(length.as_slice());
    h.write(bytes.as_slice());
    assert(h@ =~= seq![spec_u64_to_le_bytes(bytes@.len() as u64), bytes@]);
    hex(h.finish())
}

/// The page with its stylesheet and its script stamped.
pub open spec fn stamped(html: Seq<char>, css_tag: Seq<char>, js_tag: Seq<char>) -> Seq<char> {
    text::replaced(
        text::replaced(html, "/app.css\""@, "/app.css?v="@ + css_tag + "\""@),
        "/app.js\""@,
        "/app.js?v="@ + js_tag + "\""@,
    )
}

/// Stamp the asset URLs of the page.
pub fn index_html(html: &str, css_tag: &str, js_tag: &str) -> (r: String)
    ensures
        r@ == stamped(html@, css_tag@, js_tag@),
{
    proof {
        reveal_strlit("/app.css\"");
        reveal_strlit("/app.js\"");
    }
    let css = text::cat3("/app.css?v=", css_tag, "\"");
    let js = text::cat3("/app.js?v=", js_tag, "\"");
    let page = text::replace(html, "/app.css\"", css.as_str());
    text::replace(page.as_str(), "/app.js\"", js.as_str())
}

// ---------------------------------------------------------------------------
// Laws
// ---------------------------------------------------------------------------

/// Hexadecimal notation: the digits from 0 to 9 and a to f, and a number of more than
/// one digit is that of its sixteenth part, and one more digit.
pub proof fn law_hexadecimal(n: nat, d: nat)
    requires
        n > 0,
        d < 16,
    ensures
        hexadecimal(16 * n + d) == hexadecimal(n).push(hex_char(d)),
        hexadecimal(d) == seq![hex_char(d)],
        d == 0 ==> hex_char(d) == '0',
        d == 9 ==> hex_char(d) == '9',
        d < 10 ==> hex_char(d) as int == '0' as int + d,
        10 <= d ==> hex_char(d) as int == 'a' as int + (d - 10),
        d == 15 ==> hex_char(d) == 'f',
{
    assert((16 * n + d) / 16 == n && (16 * n + d) % 16 == d);
}

/// Everything of a file goes into its tag: two files of which the same is hashed are
/// the same.
pub proof fn law_the_whole_file_is_hashed(a: Seq<u8>, b: Seq<u8>)
    requires
        hashed(a) == hashed(b),
    ensures
        a == b,
{
    assert(hashed(a)[1] == a);
    assert(hashed(b)[1] == b);
}

/// A page that links the stylesheet and then the script once each links them with their
/// tags, and is otherwise as it was; one that links neither is as it was.
pub proof fn law_both_links_are_stamped(
    a: Seq<char>,
    b: Seq<char>,
    c: Seq<char>,
    css_tag: Seq<char>,
    js_tag: Seq<char>,
)
    requires
        ({
            let page = a + "/app.css\""@ + (b + "/app.js\""@ + c);
            &&& forall|j: int|
                0 <= j < a.len() ==> !#[trigger] text::occurs_at(page, "/app.css\""@, j)
            &&& !(text::has(b + "/app.js\""@ + c, "/app.css\""@))
        }),
        ({
            let head = a + ("/app.css?v="@ + css_tag + "\""@) + b;
            &&& forall|j: int|
                0 <= j < head.len() ==> !#[trigger] text::occurs_at(
                    head + "/app.js\""@ + c,
                    "/app.js\""@,
                    j,
                )
            &&& !(text::has(c, "/app.js\""@))
        }),
    ensures
        stamped(a + "/app.css\""@ + (b + "/app.js\""@ + c), css_tag, js_tag) == a + ("/app.css?v="@
            + css_tag + "\""@) + b + ("/app.js?v="@ + js_tag + "\""@) + c,
        !(text::has(a, "/app.css\""@)) && !(text::has(a, "/app.js\""@)) ==> stamped(
            a,
            css_tag,
            js_tag,
        ) == a,
{
    reveal_strlit("/app.css\"");
    reveal_strlit("/app.js\"");
    let css = "/app.css?v="@ + css_tag + "\""@;
    let js = "/app.js?v="@ + js_tag + "\""@;
    let rest = b + "/app.js\""@ + c;
    let head = a + css + b;
    text::law_replaced(a, "/app.css\""@, rest, css);
    assert(a + css + rest =~= head + "/app.js\""@ + c);
    text::law_replaced(head, "/app.js\""@, c, js);
    text::lemma_found(a, "/app.css\""@);
    text::lemma_found(a, "/app.js\""@);
}

/// The page is stamped with the tags that it is given, each where it belongs.
pub proof fn law_the_page_is_stamped(html: &str, css_tag: &str, js_tag: &str, page: String)
    requires
        call_ensures(index_html, (html, css_tag, js_tag), page),
    ensures
        page@ == text::replaced(
            text::replaced(html@, "/app.css\""@, "/app.css?v="@ + css_tag@ + "\""@),
            "/app.js\""@,
            "/app.js?v="@ + js_tag@ + "\""@,
        ),
{
}

/// The tag of a file is all of the hash of its length and its bytes, in hexadecimal.
pub proof fn law_the_tag_is_the_whole_hash(bytes: Vec<u8>, tag: String)
    requires
        call_ensures(asset_tag, (&bytes,), tag),
    ensures
        tag@ == hexadecimal(
            DefaultHasher::spec_finish(
                seq![spec_u64_to_le_bytes(bytes@.len() as u64), bytes@],
            ) as nat,
        ),
{
}

} // verus!
