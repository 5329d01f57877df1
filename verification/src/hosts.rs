//! Which `Host` a request may claim to be for.

use vstd::prelude::*;

use crate::text;

verus! {

/// A host without the port behind it.
pub open spec fn without_port(host: Seq<char>) -> Seq<char> {
    host.take(text::index_of(host, ':'))
}

/// Whether a host is on the list, with its port or without, whatever the case of
/// its letters.
pub open spec fn on_list(allowed: Seq<Seq<char>>, host: Seq<char>) -> bool {
    exists|i: int|
        0 <= i < allowed.len() && {
            let a = text::lowered(#[trigger] allowed[i]);
            a == text::lowered(host) || a == without_port(text::lowered(host))
        }
}

/// The `Host` that a request claims, as far as it could be read.
pub open spec fn claimed(host: Option<Seq<char>>) -> Seq<char> {
    match host {
        Some(h) => h,
        None => Seq::empty(),
    }
}

/// Refuse requests whose `Host` is not on the allowlist.
///
/// The daemon binds loopback and is reached through a tunnel or proxy, so the only
/// `Host` values that should ever arrive are the configured ones. Checking it
/// stops a hostile page that points a name it controls at loopback. An empty list
/// disables the check, and a request without a readable `Host` has an empty one.
pub fn known_host(allowed: &Vec<String>, host: Option<&str>) -> (r: bool)
    ensures
        r == (allowed@.len() == 0 || on_list(text::views(allowed@), claimed(text::opt_str(host)))),
{
    if allowed.len() == 0 {
        return true;
    }
    let full = match host {
        Some(h) => text::lowercase(h),
        None => text::lowercase(String::new().as_str()),
    };
    let v = text::chars_of(full.as_str());
    let colon: usize = text::index_at(&v, ':', 0);
    assert(v@.skip(0) =~= v@);
    let bare = text::string_of(&v, 0, colon);
    assert(bare@ =~= without_port(full@));
    let ghost list = text::views(allowed@);
    let mut i: usize = 0;
    while i < allowed.len()
        invariant
            i <= allowed@.len(),
            list == text::views(allowed@),
            full@ == text::lowered(claimed(text::opt_str(host))),
            bare@ == without_port(full@),
            forall|j: int|
                0 <= j < i ==> text::lowered(#[trigger] list[j]) != full@ && text::lowered(list[j])
                    != bare@,
        decreases allowed@.len() - i,
    {
        assert(list[i as int] == allowed@[i as int]@);
        let a = text::lowercase(allowed[i].as_str());
        if text::same(a.as_str(), full.as_str()) || text::same(a.as_str(), bare.as_str()) {
            return true;
        }
        i = i + 1;
    }
    false
}

/// Neither the case of the letters of a host nor that of the entries matters.
pub proof fn law_hosts_compare_without_case(allowed: Seq<Seq<char>>, host: Seq<char>)
    ensures
        on_list(allowed, text::lowered(host)) == on_list(allowed, host),
        on_list(allowed.map_values(|a: Seq<char>| text::lowered(a)), host) == on_list(
            allowed,
            host,
        ),
{
    text::lemma_lowered_idempotent(host);
    let low = allowed.map_values(|a: Seq<char>| text::lowered(a));
    assert forall|i: int| 0 <= i < allowed.len() implies text::lowered(#[trigger] low[i])
        == text::lowered(allowed[i]) by {
        text::lemma_lowered_idempotent(allowed[i]);
    }
    if on_list(allowed, host) {
        let i = choose|i: int|
            0 <= i < allowed.len() && {
                let a = text::lowered(#[trigger] allowed[i]);
                a == text::lowered(host) || a == without_port(text::lowered(host))
            };
        assert(text::lowered(low[i]) == text::lowered(allowed[i]));
    }
    if on_list(low, host) {
        let i = choose|i: int|
            0 <= i < low.len() && {
                let a = text::lowered(#[trigger] low[i]);
                a == text::lowered(host) || a == without_port(text::lowered(host))
            };
        assert(text::lowered(low[i]) == text::lowered(allowed[i]));
    }
}

/// A host is on the list where it is some entry, but for the case of letters, whether
/// or not a port stands behind it.
pub proof fn law_a_listed_host_is_known(
    allowed: Seq<Seq<char>>,
    i: int,
    host: Seq<char>,
    port: Seq<char>,
)
    requires
        0 <= i < allowed.len(),
        text::lowered(allowed[i]) == text::lowered(host),
    ensures
        on_list(allowed, host),
        !host.contains(':') ==> on_list(allowed, host + ":"@ + port),
{
    assert(text::lowered(allowed[i]) == text::lowered(host));
    if !host.contains(':') {
        reveal_strlit(":");
        let full = host + ":"@ + port;
        let n = host.len() as int;
        let low = text::lowered(full);
        assert(low[n] == ':');
        assert forall|j: int| 0 <= j < n implies low[j] != ':' by {
            assert(host.contains(host[j]));
        }
        text::lemma_index_is(low, ':', n);
        assert(low.take(n) =~= text::lowered(host));
    }
}

/// A host that is no entry, neither as it stands nor up to its first colon, is not on
/// the list, and a request that names no host names the empty one.
pub proof fn law_any_other_host_is_not(
    allowed: Seq<Seq<char>>,
    name: Seq<char>,
    port: Seq<char>,
    i: int,
)
    requires
        !name.contains(':'),
        forall|k: int|
            0 <= k < allowed.len() ==> text::lowered(#[trigger] allowed[k]) != text::lowered(name)
                && text::lowered(allowed[k]) != text::lowered(name + ":"@ + port),
    ensures
        !on_list(allowed, name),
        !on_list(allowed, name + ":"@ + port),
        claimed(None) == Seq::<char>::empty(),
        claimed(Some(name)) == name,
{
    reveal_strlit(":");
    let full = name + ":"@ + port;
    let n = name.len() as int;
    let low = text::lowered(full);
    assert(low[n] == ':');
    assert forall|j: int| 0 <= j < n implies low[j] != ':' by {
        assert(name.contains(name[j]));
    }
    text::lemma_index_is(low, ':', n);
    assert(low.take(n) =~= text::lowered(name));
    let bare = text::lowered(name);
    assert forall|j: int| 0 <= j < n implies bare[j] != ':' by {
        assert(name.contains(name[j]));
    }
    text::lemma_index_is(bare, ':', n);
    assert(bare.take(n) =~= bare);
}

/// A request is for a known host where no host is listed, and where its host is some
/// entry of the list, at whatever place, with or without a port.
pub proof fn law_known_hosts(allowed: Vec<String>, host: &str, r: bool, i: int, port: Seq<char>)
    requires
        call_ensures(known_host, (&allowed, Some(host)), r),
    ensures
        allowed@.len() == 0 ==> r,
        0 <= i < allowed@.len() && text::lowered(allowed@[i]@) == text::lowered(host@) ==> r,
        0 <= i < allowed@.len() && !allowed@[i]@.contains(':') && host@ == allowed@[i]@ + ":"@
            + port ==> r,
        r && allowed@.len() > 0 ==> exists|k: int|
            0 <= k < allowed@.len() && {
                let a = text::lowered((#[trigger] allowed@[k])@);
                a == text::lowered(host@) || a == text::lowered(host@).take(
                    text::index_of(text::lowered(host@), ':'),
                )
            },
{
    let list = text::views(allowed@);
    if 0 <= i < allowed@.len() {
        assert(list[i] == allowed@[i]@);
        if text::lowered(allowed@[i]@) == text::lowered(host@) {
            law_a_listed_host_is_known(list, i, host@, port);
        }
        law_a_listed_host_is_known(list, i, allowed@[i]@, port);
    }
    if r && allowed@.len() > 0 {
        let k = choose|k: int|
            0 <= k < list.len() && {
                let a = text::lowered(#[trigger] list[k]);
                a == text::lowered(host@) || a == without_port(text::lowered(host@))
            };
        assert(list[k] == allowed@[k]@);
    }
}

} // verus!
