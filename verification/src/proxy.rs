//! What the reverse proxy forwards: the upstream URL of a request, and which
//! headers travel with a request to Frigate and with its response back.
use vstd::prelude::*;

use crate::text::{chars_of, str_eq};

verus! {

/// `s` without the `/` characters at its end.
pub open spec fn trim_trailing_slashes(s: Seq<char>) -> Seq<char>
    decreases s.len(),
{
    if s.len() > 0 && s.last() == '/' {
        trim_trailing_slashes(s.drop_last())
    } else {
        s
    }
}

/// The URL a request goes to: the Frigate base URL without its trailing
/// slashes, followed by the request's path and query (`/` when it has none).
pub open spec fn upstream_url_of(base: Seq<char>, path_and_query: Option<Seq<char>>) -> Seq<char> {
    trim_trailing_slashes(base) + match path_and_query {
        Some(pq) => pq,
        None => "/"@,
    }
}

/// The URL to forward a request to, from the Frigate base URL and the
/// request's path and query.
pub fn upstream_url(base: &str, path_and_query: Option<&str>) -> (url: String)
    ensures
        url@ == upstream_url_of(base@, crate::auth::opt_view(path_and_query)),
{
    let c = chars_of(base);
    let mut k = c.len();
    proof {
        assert(c@.take(k as int) =~= base@);
    }
    while k > 0 && c[k - 1] == '/'
        invariant
            c@ == base@,
            k <= c@.len(),
            trim_trailing_slashes(c@.take(k as int)) == trim_trailing_slashes(base@),
        decreases k,
    {
        proof {
            assert(c@.take(k as int).drop_last() =~= c@.take(k - 1));
        }
        k = k - 1;
    }
    proof {
        if k > 0 {
            assert(c@.take(k as int).last() == c@[k - 1]);
        }
    }
    let mut url = String::from_str(base.substring_char(0, k));
    match path_and_query {
        Some(pq) => url.append(pq),
        None => url.append("/"),
    }
    proof {
        assert(c@.take(k as int) =~= base@.subrange(0, k as int));
    }
    url
}

/// The hop-by-hop headers, which concern one connection only and are never
/// forwarded.
pub open spec fn hop_by_hop(name: Seq<char>) -> bool {
    ||| name == "connection"@
    ||| name == "keep-alive"@
    ||| name == "proxy-authenticate"@
    ||| name == "proxy-authorization"@
    ||| name == "te"@
    ||| name == "trailer"@
    ||| name == "transfer-encoding"@
    ||| name == "upgrade"@
}

/// True for the (lower-case) name of a hop-by-hop header.
pub fn is_hop_by_hop(name: &str) -> (hop: bool)
    ensures
        hop == hop_by_hop(name@),
{
    str_eq(name, "connection") || str_eq(name, "keep-alive") || str_eq(name, "proxy-authenticate")
        || str_eq(name, "proxy-authorization") || str_eq(name, "te") || str_eq(name, "trailer")
        || str_eq(name, "transfer-encoding") || str_eq(name, "upgrade")
}

/// True for the (lower-case) name of a request header that goes on to
/// Frigate: every header but `host` and the hop-by-hop ones.
pub fn forwards_request_header(name: &str) -> (forwarded: bool)
    ensures
        forwarded == (name@ != "host"@ && !hop_by_hop(name@)),
{
    !str_eq(name, "host") && !is_hop_by_hop(name)
}

/// True for the (lower-case) name of a response header that goes back to
/// the caller: every header but `content-length` (the body is streamed) and
/// the hop-by-hop ones.
pub fn forwards_response_header(name: &str) -> (forwarded: bool)
    ensures
        forwarded == (name@ != "content-length"@ && !hop_by_hop(name@)),
{
    !str_eq(name, "content-length") && !is_hop_by_hop(name)
}

/// Which way a set of headers travels through the proxy.
#[derive(Clone, Copy, Debug, PartialEq, Eq, Structural)]
pub enum Direction {
    /// From the caller to Frigate.
    Request,
    /// From Frigate back to the caller.
    Response,
}

/// A header named `name` travels on in direction `dir`.
pub open spec fn forwards(dir: Direction, name: Seq<char>) -> bool {
    match dir {
        Direction::Request => name != "host"@ && !hop_by_hop(name),
        Direction::Response => name != "content-length"@ && !hop_by_hop(name),
    }
}

/// The headers that travel on in direction `dir`, as a filter on
/// (name, value) pairs.
pub open spec fn forwards_pair<V>(dir: Direction) -> spec_fn((Seq<char>, V)) -> bool {
    |h: (Seq<char>, V)| forwards(dir, h.0)
}

/// A list of headers, each name read as its characters.
pub open spec fn header_view<V>(headers: Seq<(String, V)>) -> Seq<(Seq<char>, V)> {
    headers.map_values(|h: (String, V)| (h.0@, h.1))
}

/// The headers of `headers` that travel on in direction `dir`: every pair
/// whose (lower-case) name is forwarded that way, with its value, in the
/// order given; nothing is added and no other pair is kept.
pub fn forwarded_headers<V>(headers: Vec<(String, V)>, dir: Direction) -> (kept: Vec<(String, V)>)
    ensures
        header_view(kept@) == header_view(headers@).filter(forwards_pair::<V>(dir)),
{
    let ghost all = header_view(headers@);
    let mut kept: Vec<(String, V)> = Vec::new();
    let mut rest = headers;
    let ghost mut done: int = 0;
    proof {
        reveal_with_fuel(Seq::filter, 1);
        assert(all.take(0) =~= Seq::<(Seq<char>, V)>::empty());
        assert(header_view(kept@) =~= Seq::<(Seq<char>, V)>::empty());
        assert(header_view(rest@) =~= all.skip(0));
    }
    while rest.len() > 0
        invariant
            0 <= done <= all.len(),
            header_view(rest@) == all.skip(done),
            header_view(kept@) == all.take(done).filter(forwards_pair::<V>(dir)),
        decreases rest.len(),
    {
        let ghost before = rest@;
        let (name, value) = rest.remove(0);
        proof {
            assert(header_view(before).len() == before.len());
            assert(done < all.len());
            assert(all.skip(done)[0] == all[done]);
            assert(header_view(before)[0] == all[done]);
            assert(header_view(rest@) =~= all.skip(done + 1)) by {
                assert(header_view(rest@) =~= header_view(before).drop_first());
            }
            assert(all.take(done + 1) =~= all.take(done).push(all[done]));
            all.take(done).lemma_filter_push(all[done], forwards_pair::<V>(dir));
        }
        let keep = match dir {
            Direction::Request => forwards_request_header(name.as_str()),
            Direction::Response => forwards_response_header(name.as_str()),
        };
        if keep {
            let ghost old_kept = kept@;
            kept.push((name, value));
            proof {
                assert(header_view(kept@) =~= header_view(old_kept).push(all[done]));
            }
        }
        proof {
            done = done + 1;
        }
    }
    proof {
        assert(all.skip(done).len() == 0);
        assert(all.take(done) =~= all);
    }
    kept
}

/// The hop-by-hop headers are exactly these eight names.
pub proof fn law_hop_by_hop_names(name: Seq<char>)
    ensures
        hop_by_hop(name) <==> (name == "connection"@ || name == "keep-alive"@ || name
            == "proxy-authenticate"@ || name == "proxy-authorization"@ || name == "te"@ || name
            == "trailer"@ || name == "transfer-encoding"@ || name == "upgrade"@),
{
}

/// A request to Frigate loses `host` and the eight hop-by-hop headers, and
/// keeps every other header.
pub proof fn law_request_keeps_all_but(name: Seq<char>)
    ensures
        forwards(Direction::Request, name) <==> !(name == "host"@ || name == "connection"@ || name
            == "keep-alive"@ || name == "proxy-authenticate"@ || name == "proxy-authorization"@
            || name == "te"@ || name == "trailer"@ || name == "transfer-encoding"@ || name
            == "upgrade"@),
{
}

/// A response back to the caller loses `content-length` and the eight
/// hop-by-hop headers, and keeps every other header.
pub proof fn law_response_keeps_all_but(name: Seq<char>)
    ensures
        forwards(Direction::Response, name) <==> !(name == "content-length"@ || name
            == "connection"@ || name == "keep-alive"@ || name == "proxy-authenticate"@ || name
            == "proxy-authorization"@ || name == "te"@ || name == "trailer"@ || name
            == "transfer-encoding"@ || name == "upgrade"@),
{
}

/// Trimming removes exactly the `/` characters at the end: what is left is
/// a prefix of `s` that does not end in `/`, and everything after it is `/`.
pub proof fn law_trim_trailing_slashes(s: Seq<char>)
    ensures
        trim_trailing_slashes(s).len() <= s.len(),
        s.take(trim_trailing_slashes(s).len() as int) == trim_trailing_slashes(s),
        forall|k: int| trim_trailing_slashes(s).len() <= k < s.len() ==> s[k] == '/',
        trim_trailing_slashes(s).len() == 0 || trim_trailing_slashes(s).last() != '/',
    decreases s.len(),
{
    if s.len() > 0 && s.last() == '/' {
        let d = s.drop_last();
        law_trim_trailing_slashes(d);
        let n = trim_trailing_slashes(d).len() as int;
        assert(s.take(n) =~= d.take(n));
        assert forall|k: int| n <= k < s.len() implies s[k] == '/' by {
            if k < s.len() - 1 {
                assert(d[k] == s[k]);
            }
        }
    } else {
        assert(s.take(s.len() as int) =~= s);
    }
}

/// The upstream URL: a base that does not end in `/` is followed directly
/// by the path and query; slashes added to the end of the base change
/// nothing; a request without a path and query goes to the base's `/`.
pub proof fn law_upstream_url(base: Seq<char>, pq: Seq<char>)
    ensures
        base.len() == 0 || base.last() != '/' ==> upstream_url_of(base, Some(pq)) == base + pq,
        upstream_url_of(base.push('/'), Some(pq)) == upstream_url_of(base, Some(pq)),
        upstream_url_of(base.push('/'), None) == upstream_url_of(base, None),
        upstream_url_of(base, None) == upstream_url_of(base, Some(seq!['/'])),
{
    assert(base.push('/').drop_last() =~= base);
    reveal_strlit("/");
    assert("/"@ =~= seq!['/']);
}

} // verus!
