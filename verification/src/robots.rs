use vstd::prelude::*;
use crate::error::AppError;
use crate::url_fsm::str_eq;
use crate::web::{
    url_scheme, url_host, url_explicit_port, url_path, url_norm, url_scheme_of, url_host_of,
    url_explicit_port_of, url_path_of, u16_to_dec, dec_str, push_char,
};

verus! {

/// Client settings for the dedicated robots fetcher.
#[derive(Debug, Clone)]
pub struct RobotsFilterConfig {
    pub http_config: crate::fetch::BasicHttpFetcherConfig,
}

/// Relies on `robotxt::Robots::from_bytes` and `Robots::is_relative_allowed`:
/// whether the rules parsed for this user agent allow the path, a function of
/// the three inputs alone.
pub uninterp spec fn robots_allows(txt: Seq<u8>, user_agent: Seq<char>, path: Seq<char>) -> bool;

/// Classifies one path against a fetched robots.txt body.
#[verifier::external_body]
fn robots_allowed(robots_txt: &[u8], user_agent: &str, path: &str) -> (r: bool)
    ensures
        r == robots_allows(robots_txt@, user_agent@, path@),
{
    robotxt::Robots::from_bytes(robots_txt, user_agent).is_relative_allowed(path)
}

/// The origin a URL's robots rules are fetched for: scheme and host, with
/// the port only where one is written explicitly.
pub open spec fn robots_origin_of(s: Seq<char>) -> Option<Seq<char>> {
    match (url_scheme_of(s), url_host_of(s)) {
        (Option::Some(sc), Option::Some(h)) => Some(
            sc + seq![':', '/', '/'] + h + match url_explicit_port_of(s) {
                Some(p) => seq![':'] + dec_str(p as nat),
                None => Seq::empty(),
            },
        ),
        _ => None,
    }
}

/// Builds the robots origin of a URL; fails exactly where it does not parse
/// or has no host.
pub fn robots_origin(uri: &str) -> (r: Result<String, AppError>)
    ensures
        match r {
            Ok(o) => robots_origin_of(uri@) == Some(o@) && url_norm(uri@) is Some,
            Err(e) => (robots_origin_of(uri@) is None || url_norm(uri@) is None) && e
                == AppError::UrlParseError,
        },
{
    let sc = match url_scheme(uri) {
        Some(sc) => sc,
        None => {
            return Err(AppError::UrlParseError);
        },
    };
    let h = match url_host(uri) {
        Some(h) => h,
        None => {
            return Err(AppError::UrlParseError);
        },
    };
    let mut out = sc;
    push_char(&mut out, ':');
    push_char(&mut out, '/');
    push_char(&mut out, '/');
    out.append(h.as_str());
    match url_explicit_port(uri) {
        Some(p) => {
            push_char(&mut out, ':');
            let digits = u16_to_dec(p);
            out.append(digits.as_str());
            proof {
                assert(out@ =~= robots_origin_of(uri@).unwrap());
            }
            Ok(out)
        },
        None => {
            proof {
                assert(out@ =~= robots_origin_of(uri@).unwrap());
            }
            Ok(out)
        },
    }
}

/// The robots.txt URL under an origin.
pub open spec fn robots_url_of(origin: Seq<char>) -> Seq<char> {
    origin + "/robots.txt"@
}

/// Appends the well-known robots path to an origin.
pub fn robots_url(origin: &str) -> (r: String)
    ensures
        r@ == robots_url_of(origin@),
{
    let mut out = String::from_str(origin);
    out.append("/robots.txt");
    out
}

/// Whether some bucket holds the given URI text.
pub open spec fn bucket_holds(buckets: Seq<(String, Vec<String>)>, u: Seq<char>) -> bool {
    exists|b: int, j: int|
        0 <= b < buckets.len() && 0 <= j < buckets[b].1@.len() && #[trigger] buckets[b].1@[j]@ == u
}

/// Buckets URIs by their robots origin, preserving first-seen order of the
/// origins and input order within each bucket; fails exactly where some URI
/// does not parse or has no host.
pub fn bucket_origins(uris: &Vec<String>) -> (r: Result<Vec<(String, Vec<String>)>, AppError>)
    ensures
        match r {
            Ok(buckets) => {
                &&& forall|b: int, j: int|
                    0 <= b < buckets@.len() && 0 <= j < buckets@[b].1@.len()
                        ==> robots_origin_of(#[trigger] buckets@[b].1@[j]@) == Some(buckets@[b].0@)
                &&& forall|i: int| 0 <= i < uris@.len() ==> bucket_holds(
                    buckets@,
                    #[trigger] uris@[i]@,
                )
                &&& forall|b1: int, b2: int| 0 <= b1 < b2 < buckets@.len()
                    ==> (#[trigger] buckets@[b1]).0@ != (#[trigger] buckets@[b2]).0@
                &&& forall|i: int| 0 <= i < uris@.len() ==> #[trigger] robots_origin_of(uris@[i]@)
                    is Some
            },
            Err(e) => e == AppError::UrlParseError && (exists|i: int|
                0 <= i < uris@.len() && (#[trigger] robots_origin_of(uris@[i]@) is None
                    || url_norm(uris@[i]@) is None)),
        },
{
    let mut buckets: Vec<(String, Vec<String>)> = Vec::new();
    let mut i: usize = 0;
    while i < uris.len()
        invariant
            0 <= i <= uris@.len(),
            forall|b: int, j: int|
                0 <= b < buckets@.len() && 0 <= j < buckets@[b].1@.len() ==> robots_origin_of(
                    #[trigger] buckets@[b].1@[j]@,
                ) == Some(buckets@[b].0@),
            forall|k: int| 0 <= k < i ==> bucket_holds(buckets@, #[trigger] uris@[k]@),
            forall|b1: int, b2: int| 0 <= b1 < b2 < buckets@.len()
                ==> (#[trigger] buckets@[b1]).0@ != (#[trigger] buckets@[b2]).0@,
            forall|k: int| 0 <= k < i ==> #[trigger] robots_origin_of(uris@[k]@) is Some,
        decreases uris@.len() - i,
    {
        let origin = robots_origin(uris[i].as_str())?;
        let mut b: usize = 0;
        let mut found = false;
        while b < buckets.len() && !found
            invariant
                0 <= b <= buckets@.len(),
                !found ==> forall|m: int| 0 <= m < b ==> (#[trigger] buckets@[m]).0@ != origin@,
                found ==> b >= 1 && buckets@[b - 1].0@ == origin@,
            decreases buckets@.len() - b,
        {
            if str_eq(buckets[b].0.as_str(), origin.as_str()) {
                found = true;
            }
            b = b + 1;
        }
        let ghost buckets_pre = buckets@;
        if found {
            let idx = b - 1;
            let mut pair = buckets.remove(idx);
            pair.1.push(uris[i].clone());
            buckets.insert(idx, pair);
            proof {
                assert(buckets@ =~= buckets_pre.update(idx as int, buckets@[idx as int]));
                assert(buckets@[idx as int].0@ == origin@);
                assert(buckets@[idx as int].1@ =~= buckets_pre[idx as int].1@.push(
                    buckets@[idx as int].1@.last(),
                ));
                assert(forall|m: int| 0 <= m < buckets@.len() && m != idx
                    ==> #[trigger] buckets@[m] == buckets_pre[m]);
                assert(buckets@[idx as int].1@.last()@ == uris@[i as int]@);
                assert forall|k: int| 0 <= k < i + 1 implies bucket_holds(
                    buckets@,
                    uris@[k]@,
                ) by {
                    if k < i {
                        assert(bucket_holds(buckets_pre, uris@[k]@));
                        let (bb, j): (int, int) = choose|bb: int, j: int|
                            0 <= bb < buckets_pre.len() && 0 <= j < buckets_pre[bb].1@.len()
                                && #[trigger] buckets_pre[bb].1@[j]@ == uris@[k]@;
                        if bb == idx {
                            assert(buckets@[bb].1@[j]@ == uris@[k]@);
                        } else {
                            assert(buckets@[bb].1@[j]@ == uris@[k]@);
                        }
                    } else {
                        let j = buckets@[idx as int].1@.len() - 1;
                        assert(buckets@[idx as int].1@[j]@ == uris@[k]@);
                    }
                }
            }
        } else {
            let mut fresh: Vec<String> = Vec::new();
            fresh.push(uris[i].clone());
            buckets.push((origin, fresh));
            proof {
                let last = buckets@.len() - 1;
                assert(forall|m: int| 0 <= m < buckets_pre.len()
                    ==> #[trigger] buckets@[m] == buckets_pre[m]);
                assert(buckets@[last].1@.len() == 1);
                assert(buckets@[last].1@[0]@ == uris@[i as int]@);
                assert forall|k: int| 0 <= k < i + 1 implies bucket_holds(
                    buckets@,
                    uris@[k]@,
                ) by {
                    if k < i {
                        assert(bucket_holds(buckets_pre, uris@[k]@));
                        let (bb, j): (int, int) = choose|bb: int, j: int|
                            0 <= bb < buckets_pre.len() && 0 <= j < buckets_pre[bb].1@.len()
                                && #[trigger] buckets_pre[bb].1@[j]@ == uris@[k]@;
                        assert(buckets@[bb].1@[j]@ == uris@[k]@);
                    } else {
                        assert(buckets@[last].1@[0]@ == uris@[k]@);
                    }
                }
            }
        }
        i = i + 1;
    }
    Ok(buckets)
}

/// Classifies each URI of one origin bucket against the fetched robots.txt
/// body; a missing body stands for a failed fetch and is permissive,
/// allowing every path. Fails exactly where some URI does not parse.
pub fn classify_against_robots(
    uris: Vec<String>,
    robots_txt: &Option<Vec<u8>>,
    user_agent: &str,
) -> (r: Result<Vec<(String, bool)>, AppError>)
    ensures
        match r {
            Ok(out) => {
                &&& out@.len() == uris@.len()
                &&& forall|i: int| 0 <= i < out@.len() ==> (#[trigger] out@[i]).0@ == uris@[i]@
                &&& forall|i: int| 0 <= i < out@.len() ==> #[trigger] url_path_of(uris@[i]@)
                    is Some
                &&& forall|i: int| 0 <= i < out@.len() ==> (#[trigger] out@[i]).1 == (
                match robots_txt {
                    Some(txt) => robots_allows(txt@, user_agent@, url_path_of(uris@[i]@).unwrap()),
                    None => true,
                })
            },
            Err(e) => e == AppError::UrlParseError && (exists|i: int|
                0 <= i < uris@.len() && #[trigger] url_path_of(uris@[i]@) is None),
        },
{
    let mut out: Vec<(String, bool)> = Vec::new();
    let mut i: usize = 0;
    while i < uris.len()
        invariant
            0 <= i <= uris@.len(),
            out@.len() == i,
            forall|j: int| 0 <= j < i ==> (#[trigger] out@[j]).0@ == uris@[j]@,
            forall|j: int| 0 <= j < i ==> #[trigger] url_path_of(uris@[j]@) is Some,
            forall|j: int| 0 <= j < i ==> (#[trigger] out@[j]).1 == (match robots_txt {
                Some(txt) => robots_allows(txt@, user_agent@, url_path_of(uris@[j]@).unwrap()),
                None => true,
            }),
        decreases uris@.len() - i,
    {
        let path = match url_path(uris[i].as_str()) {
            Some(p) => p,
            None => {
                return Err(AppError::UrlParseError);
            },
        };
        let allowed = match robots_txt {
            Some(txt) => robots_allowed(txt.as_slice(), user_agent, path.as_str()),
            None => true,
        };
        out.push((uris[i].clone(), allowed));
        i = i + 1;
    }
    Ok(out)
}

} // verus!
