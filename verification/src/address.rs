//! Server addresses: from what a user wrote to a protocol and a host.
//!
//! An address is the word `local`, a bare host, or a URL. Its canonical form is
//! found by taking one `/` from its end, then one `/spacetime`, then one `/`
//! again; the protocol is read from an `https://` or `http://` at the front, and
//! the host is what stands before the next `/`.

use vstd::prelude::*;
use vstd::string::*;
use crate::text::{
    ends_with, first_index_of, lemma_first_index_of, lemma_first_index_of_unique, starts_with,
    str_equals, str_first_index_of, str_starts_with, str_without_suffix, without_suffix,
};

verus! {

/// `/`.
pub open spec fn slash() -> Seq<char> {
    seq!['/']
}

/// `/spacetime`, the path under which a server is reached.
pub open spec fn spacetime_segment() -> Seq<char> {
    seq!['/', 's', 'p', 'a', 'c', 'e', 't', 'i', 'm', 'e']
}

/// `spacetime`, the word of that path.
pub open spec fn spacetime_word() -> Seq<char> {
    seq!['s', 'p', 'a', 'c', 'e', 't', 'i', 'm', 'e']
}

/// `local`, the alias of the server on this machine.
pub open spec fn local_alias() -> Seq<char> {
    seq!['l', 'o', 'c', 'a', 'l']
}

/// `127.0.0.1:3000`, the host that `local` stands for.
pub open spec fn local_host() -> Seq<char> {
    seq!['1', '2', '7', '.', '0', '.', '0', '.', '1', ':', '3', '0', '0', '0']
}

/// `http`.
pub open spec fn http() -> Seq<char> {
    seq!['h', 't', 't', 'p']
}

/// `https`.
pub open spec fn https() -> Seq<char> {
    seq!['h', 't', 't', 'p', 's']
}

/// `://`, which parts a protocol from a host.
pub open spec fn scheme_mark() -> Seq<char> {
    seq![':', '/', '/']
}

/// `/v1/identity`, the path at which a server issues identities.
pub open spec fn identity_path() -> Seq<char> {
    seq!['/', 'v', '1', '/', 'i', 'd', 'e', 'n', 't', 'i', 't', 'y']
}

/// The address without one `/`, then one `/spacetime`, then one `/` at its end.
pub open spec fn base_of(address: Seq<char>) -> Seq<char> {
    without_suffix(
        without_suffix(without_suffix(address, slash()), spacetime_segment()),
        slash(),
    )
}

/// What stands in `s` before its first `/`.
pub open spec fn up_to_slash(s: Seq<char>) -> Seq<char> {
    s.subrange(0, first_index_of(s, '/'))
}

/// The protocol and the host of an address.
pub open spec fn target_of(address: Seq<char>) -> (Seq<char>, Seq<char>) {
    let base = base_of(address);
    if address == local_alias() {
        (http(), local_host())
    } else if starts_with(base, https() + scheme_mark()) {
        (https(), up_to_slash(base.subrange(8, base.len() as int)))
    } else if starts_with(base, http() + scheme_mark()) {
        (http(), up_to_slash(base.subrange(7, base.len() as int)))
    } else {
        (http(), up_to_slash(base))
    }
}

/// The URL that a protocol and a host stand for.
pub open spec fn url_of(target: (Seq<char>, Seq<char>)) -> Seq<char> {
    target.0 + scheme_mark() + target.1
}

/// The URL at which a server issues an identity for an address.
pub open spec fn identity_url_of(address: Seq<char>) -> Seq<char> {
    base_of(address) + identity_path()
}

/// The base of an address, as a part of it.
fn base_str<'a>(address: &'a str) -> (base: &'a str)
    ensures
        base@ == base_of(address@),
{
    proof {
        reveal_strlit("/");
        reveal_strlit("/spacetime");
        assert("/"@ =~= slash());
        assert("/spacetime"@ =~= spacetime_segment());
    }
    let once = str_without_suffix(address, "/");
    let bare = str_without_suffix(once, "/spacetime");
    str_without_suffix(bare, "/")
}

/// What stands in `s` before its first `/`, as a part of it.
fn host_str<'a>(s: &'a str) -> (host: &'a str)
    ensures
        host@ == up_to_slash(s@),
{
    let end: usize = str_first_index_of(s, '/');
    proof {
        lemma_first_index_of(s@, '/');
    }
    s.substring_char(0, end)
}

/// The base URL of an address: the address without one `/`, then one
/// `/spacetime`, then one `/` at its end, its scheme kept.
pub fn normalize_identity_base(address: &str) -> (base: String)
    ensures
        base@ == base_of(address@),
{
    String::from_str(base_str(address))
}

/// The URL at which the server of `address` issues an identity.
pub fn identity_url(address: &str) -> (url: String)
    ensures
        url@ == identity_url_of(address@),
{
    proof {
        reveal_strlit("/v1/identity");
        assert("/v1/identity"@ =~= identity_path());
    }
    normalize_identity_base(address).concat("/v1/identity")
}

/// The protocol and the host of an address. `local` stands for
/// `127.0.0.1:3000` over http; an address without a scheme is read as http; one
/// that holds no host gives an empty host.
pub fn normalize_server_target(address: &str) -> (target: (String, String))
    ensures
        (target.0@, target.1@) == target_of(address@),
{
    proof {
        reveal_strlit("local");
        reveal_strlit("127.0.0.1:3000");
        reveal_strlit("http");
        reveal_strlit("https");
        reveal_strlit("http://");
        reveal_strlit("https://");
        assert("local"@ =~= local_alias());
        assert("127.0.0.1:3000"@ =~= local_host());
        assert("http"@ =~= http());
        assert("https"@ =~= https());
        assert("http://"@ =~= http() + scheme_mark());
        assert("https://"@ =~= https() + scheme_mark());
    }
    if str_equals(address, "local") {
        return (String::from_str("http"), String::from_str("127.0.0.1:3000"));
    }
    let base = base_str(address);
    let n: usize = base.unicode_len();
    if str_starts_with(base, "https://") {
        let rest = base.substring_char(8, n);
        return (String::from_str("https"), String::from_str(host_str(rest)));
    }
    if str_starts_with(base, "http://") {
        let rest = base.substring_char(7, n);
        return (String::from_str("http"), String::from_str(host_str(rest)));
    }
    (String::from_str("http"), String::from_str(host_str(base)))
}

/// The protocol of every address is `http` or `https`, and no `/` stands in
/// its host.
pub proof fn lemma_target_shape(address: Seq<char>)
    ensures
        target_of(address).0 == http() || target_of(address).0 == https(),
        forall|i: int| 0 <= i < target_of(address).1.len() ==> target_of(address).1[i] != '/',
{
    let base = base_of(address);
    lemma_first_index_of(base, '/');
    if base.len() >= 8 {
        lemma_first_index_of(base.subrange(8, base.len() as int), '/');
    }
    if base.len() >= 7 {
        lemma_first_index_of(base.subrange(7, base.len() as int), '/');
    }
}

/// A URL made of `http` or `https`, `://` and a host that is not empty, is not
/// `spacetime` and holds no `/`, has that protocol and that host.
pub proof fn lemma_target_of_url(protocol: Seq<char>, host: Seq<char>)
    requires
        protocol == http() || protocol == https(),
        host.len() > 0,
        host != spacetime_word(),
        forall|i: int| 0 <= i < host.len() ==> host[i] != '/',
    ensures
        target_of(url_of((protocol, host))) == (protocol, host),
{
    let url = url_of((protocol, host));
    let lead = protocol.len() + 3;
    assert(url.len() == lead + host.len());
    assert(forall|i: int| 0 <= i < host.len() ==> url[lead + i] == host[i]);
    assert(url[lead - 1] == '/');
    assert(url != local_alias());
    assert(!ends_with(url, slash())) by {
        if ends_with(url, slash()) {
            assert(url.subrange(url.len() - 1, url.len() as int)[0] == slash()[0]);
            assert(url[lead + (host.len() - 1)] == host[host.len() - 1]);
        }
    }
    let seg = spacetime_segment();
    assert(!ends_with(url, seg)) by {
        if ends_with(url, seg) {
            let tail = url.subrange(url.len() - 10, url.len() as int);
            assert(forall|i: int| 0 <= i < 10 ==> tail[i] == url[url.len() - 10 + i]);
            if host.len() >= 10 {
                assert(tail[0] == seg[0]);
                assert(url[lead + (host.len() - 10)] == host[host.len() - 10]);
            } else if host.len() == 9 {
                assert forall|i: int| 0 <= i < 9 implies host[i] == spacetime_word()[i] by {
                    assert(tail[i + 1] == seg[i + 1]);
                    assert(url[lead + i] == host[i]);
                }
                assert(host =~= spacetime_word());
            } else {
                assert(tail[9 - host.len()] == seg[9 - host.len()]);
                assert(url[url.len() - 10 + (9 - host.len())] == url[lead - 1]);
            }
        }
    }
    assert(base_of(url) == url);
    lemma_first_index_of_unique(host, '/', host.len() as int);
    assert(host.subrange(0, host.len() as int) =~= host);
    if protocol == https() {
        assert(url.subrange(0, 8) =~= https() + scheme_mark());
        assert(url.subrange(8, url.len() as int) =~= host);
    } else {
        assert(!starts_with(url, https() + scheme_mark())) by {
            if starts_with(url, https() + scheme_mark()) {
                assert(url.subrange(0, 8)[4] == (https() + scheme_mark())[4]);
            }
        }
        assert(url.subrange(0, 7) =~= http() + scheme_mark());
        assert(url.subrange(7, url.len() as int) =~= host);
    }
}

/// Normalizing is idempotent: the URL written from an address's protocol and
/// host has that protocol and that host again. It holds of every address whose
/// host is neither empty nor the word `spacetime`.
pub proof fn lemma_target_idempotent(address: Seq<char>)
    requires
        target_of(address).1.len() > 0,
        target_of(address).1 != spacetime_word(),
    ensures
        target_of(url_of(target_of(address))) == target_of(address),
{
    lemma_target_shape(address);
    lemma_target_of_url(target_of(address).0, target_of(address).1);
}

/// A base that ends neither with `/` nor with `/spacetime` is its own base.
pub proof fn lemma_base_of_base(base: Seq<char>)
    requires
        !ends_with(base, slash()),
        !ends_with(base, spacetime_segment()),
    ensures
        base_of(base) == base,
{
}

} // verus!
