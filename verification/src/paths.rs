//! File paths, as texts with `/` between their components.

use vstd::prelude::*;
use vstd::string::*;

use crate::text;

verus! {

/// The path that `rel` names below `base`; an absolute `rel` replaces `base`.
pub open spec fn below(base: Seq<char>, rel: Seq<char>) -> Seq<char> {
    if rel.len() > 0 && rel[0] == '/' {
        rel
    } else if base.len() == 0 || base.last() == '/' {
        base + rel
    } else {
        base.push('/') + rel
    }
}

/// `Path::join` on Unix.
pub fn join(base: &str, rel: &str) -> (r: String)
    ensures
        r@ == below(base@, rel@),
{
    let b = text::chars_of(base);
    let v = text::chars_of(rel);
    if v.len() > 0 && v[0] == '/' {
        return rel.to_owned();
    }
    let mut r = base.to_owned();
    if b.len() > 0 && b[b.len() - 1] != '/' {
        r.push('/');
    }
    r.append(rel);
    r
}

/// A relative path stands below the directory behind one slash, whether or not the
/// directory is written with one; an absolute path stands for itself.
pub proof fn law_below(base: Seq<char>, rel: Seq<char>)
    requires
        base.len() > 0 && base.last() != '/',
        rel.len() > 0 ==> rel[0] != '/',
    ensures
        below(base, rel) == base + "/"@ + rel,
        below(base + "/"@, rel) == base + "/"@ + rel,
        below(base, "/"@ + rel) == "/"@ + rel,
        below(Seq::empty(), rel) == rel,
{
    reveal_strlit("/");
    assert(base.push('/') + rel =~= base + "/"@ + rel);
    assert((base + "/"@).last() == '/');
    assert(("/"@ + rel)[0] == '/');
}

} // verus!
