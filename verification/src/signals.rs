use vstd::prelude::*;
use crate::error::AppError;
use crate::web::{
    url_scheme, url_host, url_domain, url_port_or_default, url_norm, url_scheme_of, url_host_of,
    url_domain_of, url_port_or_default_of, u16_to_dec, dec_str, push_char,
};

verus! {

// ---------------------------------------------------------------------------
// Keys
// ---------------------------------------------------------------------------

/// The 128-bit XXH3 digest of a byte sequence, rendered big-endian.
pub uninterp spec fn xxh3_128_of(bytes: Seq<u8>) -> Seq<u8>;

/// Relies on `xxhash_rust::xxh3::xxh3_128`: the 128-bit XXH3 digest with the
/// default secret, a function of the input bytes alone; 16 bytes, big-endian.
#[verifier::external_body]
fn xxh3_128_be(data: &[u8]) -> (r: Vec<u8>)
    ensures
        r@ == xxh3_128_of(data@),
        r@.len() == 16,
{
    xxhash_rust::xxh3::xxh3_128(data).to_be_bytes().to_vec()
}

/// The signal key of a string: the big-endian XXH3-128 digest of its UTF-8
/// bytes.
pub open spec fn key_of(s: Seq<char>) -> Seq<u8> {
    xxh3_128_of(vstd::utf8::encode_utf8(s))
}

/// Hashes a canonical string into its 16-byte signal key.
pub fn string_key(s: &str) -> (r: Vec<u8>)
    ensures
        r@ == key_of(s@),
        r@.len() == 16,
{
    xxh3_128_be(s.as_bytes())
}

// ---------------------------------------------------------------------------
// Canonical host and site strings
// ---------------------------------------------------------------------------

/// The canonical host string a URL is aggregated under:
/// `scheme://host:port`, with the scheme's well-known default port where none
/// is written, and no port where the scheme has no known default.
pub open spec fn host_string_of(s: Seq<char>) -> Option<Seq<char>> {
    match (url_scheme_of(s), url_host_of(s)) {
        (Option::Some(sc), Option::Some(h)) => Some(
            sc + seq![':', '/', '/'] + h + match url_port_or_default_of(s) {
                Some(p) => seq![':'] + dec_str(p as nat),
                None => Seq::empty(),
            },
        ),
        _ => None,
    }
}

/// Builds the canonical host string; fails exactly where the URL does not
/// parse or has no host.
pub fn host_string(uri: &str) -> (r: Result<String, AppError>)
    ensures
        match r {
            Ok(h) => host_string_of(uri@) == Some(h@),
            Err(e) => host_string_of(uri@) is None && e == AppError::UrlParseError,
        },
{
    let sc = match url_scheme(uri) {
        Some(sc) => sc,
        None => {
            return Err(AppError::UrlParseError);
        },
    };
    let h = match url_host(uri) {
        Some(h) => h,
        None => {
            return Err(AppError::UrlParseError);
        },
    };
    let mut out = sc;
    push_char(&mut out, ':');
    push_char(&mut out, '/');
    push_char(&mut out, '/');
    out.append(h.as_str());
    match url_port_or_default(uri) {
        Some(p) => {
            push_char(&mut out, ':');
            let digits = u16_to_dec(p);
            out.append(digits.as_str());
            proof {
                assert(out@ =~= host_string_of(uri@).unwrap());
            }
            Ok(out)
        },
        None => {
            proof {
                assert(out@ =~= host_string_of(uri@).unwrap());
            }
            Ok(out)
        },
    }
}

/// The index of the last `.` strictly before `end`, or -1 where none occurs.
pub open spec fn last_dot_before(d: Seq<char>, end: int) -> int
    decreases end,
{
    if end <= 0 {
        -1
    } else if d[end - 1] == '.' {
        end - 1
    } else {
        last_dot_before(d, end - 1)
    }
}

/// The last two dot-separated labels of a host name, or the whole name where
/// it has fewer.
pub open spec fn registrable_suffix(d: Seq<char>) -> Seq<char> {
    let ld = last_dot_before(d, d.len() as int);
    if ld < 0 {
        d
    } else {
        let pd = last_dot_before(d, ld);
        if pd < 0 {
            d
        } else {
            d.skip(pd + 1)
        }
    }
}

fn find_last_dot(d: &str, end: usize) -> (r: Option<usize>)
    requires
        end <= d@.len(),
    ensures
        match r {
            Some(i) => last_dot_before(d@, end as int) == i as int && i < end,
            None => last_dot_before(d@, end as int) == -1,
        },
{
    let mut e = end;
    while e > 0
        invariant
            0 <= e <= end <= d@.len(),
            last_dot_before(d@, end as int) == last_dot_before(d@, e as int),
        decreases e,
    {
        if d.get_char(e - 1) == '.' {
            return Some(e - 1);
        }
        e = e - 1;
    }
    None
}

/// The site string a URL is aggregated under: the last two labels of its
/// host name, or the host itself where it is an IP literal or a bare label.
pub open spec fn site_string_of(s: Seq<char>) -> Option<Seq<char>> {
    match url_host_of(s) {
        Option::None => None,
        Option::Some(h) => match url_domain_of(s) {
            Option::None => Some(h),
            Option::Some(d) => Some(registrable_suffix(d)),
        },
    }
}

/// Builds the site string; fails exactly where the URL does not parse or has
/// no host.
pub fn site_string(uri: &str) -> (r: Result<String, AppError>)
    ensures
        match r {
            Ok(h) => site_string_of(uri@) == Some(h@),
            Err(e) => site_string_of(uri@) is None && e == AppError::UrlParseError,
        },
{
    let h = match url_host(uri) {
        Some(h) => h,
        None => {
            return Err(AppError::UrlParseError);
        },
    };
    match url_domain(uri) {
        None => Ok(h),
        Some(d) => {
            let len = d.as_str().unicode_len();
            let suffix = match find_last_dot(d.as_str(), len) {
                None => String::from_str(d.as_str()),
                Some(ld) => match find_last_dot(d.as_str(), ld) {
                    None => String::from_str(d.as_str()),
                    Some(pd) => {
                        let piece = d.as_str().substring_char(pd + 1, len);
                        proof {
                            assert(d@.subrange(pd + 1, len as int) =~= d@.skip(pd + 1));
                        }
                        String::from_str(piece)
                    },
                },
            };
            Ok(suffix)
        },
    }
}

// ---------------------------------------------------------------------------
// Signal rows
// ---------------------------------------------------------------------------

/// The three keys every URL-scoped signal row is derived under.
#[derive(Debug, Clone)]
pub struct SignalKeys {
    pub url_key: Vec<u8>,
    pub host_key: Vec<u8>,
    pub site_key: Vec<u8>,
}

/// Derives the url, host and site keys of a URI; fails exactly where the
/// URI does not parse as an absolute URL with a host.
pub fn signal_keys(uri: &str) -> (r: Result<SignalKeys, AppError>)
    ensures
        match r {
            Ok(k) => {
                &&& host_string_of(uri@) matches Some(h) && k.host_key@ == key_of(h)
                &&& site_string_of(uri@) matches Some(s) && k.site_key@ == key_of(s)
                &&& k.url_key@ == key_of(uri@)
                &&& k.url_key@.len() == 16 && k.host_key@.len() == 16 && k.site_key@.len() == 16
            },
            Err(e) => (host_string_of(uri@) is None || site_string_of(uri@) is None) && e
                == AppError::UrlParseError,
        },
{
    let host = host_string(uri)?;
    let site = site_string(uri)?;
    Ok(SignalKeys {
        url_key: string_key(uri),
        host_key: string_key(host.as_str()),
        site_key: string_key(site.as_str()),
    })
}

/// Discovery-depth signal row: how far a URL sits from the seeds and when it
/// was first seen. Timestamps are naive-UTC microseconds.
#[derive(Debug, Clone)]
pub struct UrlDepth {
    pub url_key: Vec<u8>,
    pub depth: i32,
    pub discovered_ts_micros: i64,
}

/// Politeness gate for a host: the earliest next fetch and the current
/// lease. Timestamps are naive-UTC microseconds.
#[derive(Debug, Clone)]
pub struct HostGate {
    pub host_key: Vec<u8>,
    pub next_allowed_ts_micros: i64,
    pub lease_until_ts_micros: i64,
    pub lease_owner: String,
}

// ---------------------------------------------------------------------------
// Batch spans for upserts
// ---------------------------------------------------------------------------

/// Splits `len` rows into consecutive spans of at most `batch_size` (at
/// least one) rows each: the grouping a batched upsert commits one span at a
/// time. Span `i` covers rows `i*b` up to but not including `min(i*b+b,
/// len)`, and the last span ends exactly at `len`.
pub fn chunk_spans(len: usize, batch_size: usize) -> (r: Vec<(usize, usize)>)
    ensures
        ({
            let b = if batch_size == 0 {
                1int
            } else {
                batch_size as int
            };
            &&& forall|i: int| 0 <= i < r@.len() ==> (#[trigger] r@[i]).0 == i * b
                && r@[i].1 == (if i * b + b <= len {
                i * b + b
            } else {
                len as int
            })
            &&& (r@.len() == 0) <==> (len == 0)
            &&& r@.len() > 0 ==> r@[r@.len() - 1].1 == len
        }),
{
    let b: usize = if batch_size == 0 {
        1
    } else {
        batch_size
    };
    let mut out: Vec<(usize, usize)> = Vec::new();
    let mut start: usize = 0;
    proof {
        assert(out@.len() * b == 0) by (nonlinear_arith)
            requires
                out@.len() == 0,
        ;
    }
    while start < len
        invariant
            0 <= start <= len,
            1 <= b,
            b as int == (if batch_size == 0 {
                1int
            } else {
                batch_size as int
            }),
            out@.len() * b == start,
            forall|i: int| 0 <= i < out@.len() ==> (#[trigger] out@[i]).0 == i * b && out@[i].1
                == (if i * b + b <= len {
                i * b + b
            } else {
                len as int
            }),
        decreases len - start,
    {
        let end = if len - start < b {
            len
        } else {
            start + b
        };
        let ghost n = out@.len() as int;
        out.push((start, end));
        proof {
            assert((n + 1) * b == n * b + b) by (nonlinear_arith);
            assert(out@[n].0 == n * b);
            if start + b <= len {
                assert(out@[n].1 == n * b + b);
            } else {
                assert(out@[n].1 == len as int);
            }
        }
        if end == len {
            proof {
                assert(out@.len() > 0);
                assert(out@[out@.len() - 1].1 == len);
            }
            return out;
        }
        start = end;
    }
    proof {
        assert(out@.len() * b == start && start == len);
        if len == 0 {
            assert(out@.len() == 0) by (nonlinear_arith)
                requires
                    out@.len() * b == 0,
                    b >= 1,
            ;
        } else {
            assert(out@.len() > 0) by (nonlinear_arith)
                requires
                    out@.len() * b == len,
                    b >= 1,
                    len > 0,
            ;
            let n = out@.len() as int;
            assert((n - 1) * b + b == n * b) by (nonlinear_arith);
            assert(out@[n - 1].1 == len);
        }
    }
    out
}

// ---------------------------------------------------------------------------
// Fingerprint decoding
// ---------------------------------------------------------------------------

pub open spec fn is_dec_digit(c: char) -> bool {
    '0' <= c && c <= '9'
}

pub open spec fn digit_value(c: char) -> int {
    c as u32 as int - '0' as u32 as int
}

/// One left-to-right pass over a comma-separated list of decimal numbers:
/// `cur` is the value being accumulated, `acc` the finished values. A
/// non-digit, non-comma character or a value beyond `u64` fails the parse;
/// empty segments are skipped.
pub open spec fn scan_minhash(s: Seq<char>, i: int, cur: Option<u64>, acc: Seq<u64>) -> Option<
    Seq<u64>,
>
    decreases s.len() - i,
    when 0 <= i <= s.len()
{
    if i >= s.len() {
        match cur {
            Some(v) => Some(acc.push(v)),
            None => Some(acc),
        }
    } else if s[i] == ',' {
        match cur {
            Some(v) => scan_minhash(s, i + 1, None, acc.push(v)),
            None => scan_minhash(s, i + 1, None, acc),
        }
    } else if is_dec_digit(s[i]) {
        let d = digit_value(s[i]);
        let base = match cur {
            Some(v) => v as int,
            None => 0int,
        };
        if base * 10 + d > u64::MAX {
            None
        } else {
            scan_minhash(s, i + 1, Some((base * 10 + d) as u64), acc)
        }
    } else {
        None
    }
}

/// The content fingerprint stored as comma-separated decimals, decoded; or
/// `None` where the text is not such a list.
pub open spec fn minhash_of(s: Seq<char>) -> Option<Seq<u64>> {
    scan_minhash(s, 0, None, Seq::empty())
}

/// Decodes a stored fingerprint column.
pub fn parse_minhash_csv(s: &str) -> (r: Option<Vec<u64>>)
    ensures
        match r {
            Some(v) => minhash_of(s@) == Some(v@),
            None => minhash_of(s@) is None,
        },
{
    let len = s.unicode_len();
    let mut acc: Vec<u64> = Vec::new();
    let mut cur: Option<u64> = None;
    let mut i: usize = 0;
    while i < len
        invariant
            0 <= i <= len,
            len == s@.len(),
            minhash_of(s@) == scan_minhash(s@, i as int, cur, acc@),
        decreases len - i,
    {
        let c = s.get_char(i);
        if c == ',' {
            match cur {
                Some(v) => {
                    acc.push(v);
                    cur = None;
                },
                None => {},
            }
        } else if '0' <= c && c <= '9' {
            let d: u64 = (c as u32 - '0' as u32) as u64;
            let base: u64 = match cur {
                Some(v) => v,
                None => 0,
            };
            if base > (u64::MAX - d) / 10 {
                proof {
                    assert(base as int * 10 + d > u64::MAX) by (nonlinear_arith)
                        requires
                            base as int > (u64::MAX - d) as int / 10,
                            0 <= d <= 9,
                            base <= u64::MAX,
                    ;
                }
                return None;
            }
            proof {
                assert(base as int * 10 + d <= u64::MAX) by (nonlinear_arith)
                    requires
                        base as int <= (u64::MAX - d) as int / 10,
                        0 <= d <= 9,
                ;
            }
            cur = Some(base * 10 + d);
        } else {
            return None;
        }
        i = i + 1;
    }
    match cur {
        Some(v) => {
            acc.push(v);
        },
        None => {},
    }
    Some(acc)
}

} // verus!
