use vstd::prelude::*;
use crate::error::AppError;

verus! {

// ---------------------------------------------------------------------------
// Characters and trimming
// ---------------------------------------------------------------------------

/// The whitespace characters stripped from the ends of an href before
/// normalization.
pub open spec fn is_space_char(c: char) -> bool {
    c == ' ' || c == '\t' || c == '\n' || c == '\r'
}

pub open spec fn trim_front(s: Seq<char>) -> Seq<char>
    decreases s.len(),
{
    if s.len() > 0 && is_space_char(s[0]) {
        trim_front(s.skip(1))
    } else {
        s
    }
}

pub open spec fn trim_back(s: Seq<char>) -> Seq<char>
    decreases s.len(),
{
    if s.len() > 0 && is_space_char(s[s.len() - 1]) {
        trim_back(s.take(s.len() - 1))
    } else {
        s
    }
}

/// `s` with leading and trailing whitespace removed.
pub open spec fn trimmed(s: Seq<char>) -> Seq<char> {
    trim_back(trim_front(s))
}

proof fn lemma_trim_front_range(s: Seq<char>, i: int)
    requires
        0 <= i <= s.len(),
        forall|k: int| 0 <= k < i ==> is_space_char(s[k]),
        i == s.len() || !is_space_char(s[i]),
    ensures
        trim_front(s) == s.skip(i),
    decreases i,
{
    if i == 0 {
        assert(s.skip(0) == s);
    } else {
        assert(is_space_char(s[0]));
        lemma_trim_front_range(s.skip(1), i - 1);
        assert(s.skip(1).skip(i - 1) == s.skip(i));
    }
}

proof fn lemma_trim_back_range(s: Seq<char>, j: int)
    requires
        0 <= j <= s.len(),
        forall|k: int| j <= k < s.len() ==> is_space_char(s[k]),
        j == 0 || !is_space_char(s[j - 1]),
    ensures
        trim_back(s) == s.take(j),
    decreases s.len() - j,
{
    if j == s.len() {
        assert(s.take(j) == s);
    } else {
        assert(is_space_char(s[s.len() - 1]));
        lemma_trim_back_range(s.take(s.len() - 1), j);
        assert(s.take(s.len() - 1).take(j) == s.take(j));
    }
}

fn is_space(c: char) -> (r: bool)
    ensures
        r == is_space_char(c),
{
    c == ' ' || c == '\t' || c == '\n' || c == '\r'
}

/// Strips leading and trailing whitespace.
pub fn trim_str(s: &str) -> (r: String)
    ensures
        r@ == trimmed(s@),
{
    let len = s.unicode_len();
    let mut i: usize = 0;
    while i < len && is_space(s.get_char(i))
        invariant
            0 <= i <= len,
            len == s@.len(),
            forall|k: int| 0 <= k < i ==> is_space_char(s@[k]),
        decreases len - i,
    {
        i = i + 1;
    }
    proof {
        lemma_trim_front_range(s@, i as int);
    }
    let mut j: usize = len;
    while j > i && is_space(s.get_char(j - 1))
        invariant
            i <= j <= len,
            len == s@.len(),
            forall|k: int| j <= k < len ==> is_space_char(s@[k]),
        decreases j,
    {
        j = j - 1;
    }
    proof {
        if i == j {
            // the whole string is whitespace past i; the front-trimmed part
            // is empty and trimming its back leaves it empty
            assert(s@.skip(i as int).len() == len - i);
            lemma_trim_back_range(s@.skip(i as int), 0);
            assert(forall|k: int| 0 <= k < s@.skip(i as int).len()
                ==> s@.skip(i as int)[k] == s@[k + i]);
        } else {
            assert(!is_space_char(s@[j - 1]));
            lemma_trim_back_range(s@.skip(i as int), j - i);
            assert(forall|k: int| 0 <= k < s@.skip(i as int).len()
                ==> s@.skip(i as int)[k] == s@[k + i]);
        }
        assert(s@.skip(i as int).take(j - i) == s@.subrange(i as int, j as int));
    }
    let piece = s.substring_char(i, j);
    String::from_str(piece)
}

// ---------------------------------------------------------------------------
// Decimal rendering
// ---------------------------------------------------------------------------

pub open spec fn digit_char(d: nat) -> char {
    if d == 0 { '0' }
    else if d == 1 { '1' }
    else if d == 2 { '2' }
    else if d == 3 { '3' }
    else if d == 4 { '4' }
    else if d == 5 { '5' }
    else if d == 6 { '6' }
    else if d == 7 { '7' }
    else if d == 8 { '8' }
    else { '9' }
}

/// The decimal rendering of `n`, most significant digit first.
pub open spec fn dec_str(n: nat) -> Seq<char>
    decreases n,
{
    if n < 10 {
        seq![digit_char(n)]
    } else {
        dec_str(n / 10).push(digit_char(n % 10))
    }
}

fn digit_of(d: u8) -> (c: char)
    requires
        d < 10,
    ensures
        c == digit_char(d as nat),
{
    if d == 0 { '0' }
    else if d == 1 { '1' }
    else if d == 2 { '2' }
    else if d == 3 { '3' }
    else if d == 4 { '4' }
    else if d == 5 { '5' }
    else if d == 6 { '6' }
    else if d == 7 { '7' }
    else if d == 8 { '8' }
    else { '9' }
}

/// Relies on `String::push`: appends a single character to the string.
#[verifier::external_body]
pub(crate) fn push_char(s: &mut String, c: char)
    ensures
        final(s)@ == old(s)@.push(c),
{
    s.push(c);
}

/// Collects decoded characters into an owned string.
pub fn chars_to_string(v: &Vec<char>) -> (r: String)
    ensures
        r@ == v@,
{
    let mut s = String::new();
    let mut i: usize = 0;
    while i < v.len()
        invariant
            0 <= i <= v@.len(),
            s@ == v@.subrange(0, i as int),
        decreases v@.len() - i,
    {
        push_char(&mut s, v[i]);
        i = i + 1;
        proof {
            assert(s@ =~= v@.subrange(0, i as int));
        }
    }
    proof {
        assert(v@.subrange(0, v@.len() as int) =~= v@);
    }
    s
}

/// Renders a port number in decimal.
pub fn u16_to_dec(n: u16) -> (r: String)
    ensures
        r@ == dec_str(n as nat),
    decreases n,
{
    if n < 10 {
        let mut s = String::new();
        push_char(&mut s, digit_of(n as u8));
        assert(s@ == dec_str(n as nat));
        s
    } else {
        let mut s = u16_to_dec(n / 10);
        push_char(&mut s, digit_of((n % 10) as u8));
        s
    }
}

// ---------------------------------------------------------------------------
// Trusted view of the url crate
// ---------------------------------------------------------------------------

/// The WHATWG-normalized serialization of `s` parsed as an absolute URL, or
/// `None` where `s` does not parse as one.
pub uninterp spec fn url_norm(s: Seq<char>) -> Option<Seq<char>>;

/// The normalized serialization of the reference `rel` resolved against the
/// absolute URL `base`, or `None` where `base` does not parse or resolution
/// fails.
pub uninterp spec fn url_join_norm(base: Seq<char>, rel: Seq<char>) -> Option<Seq<char>>;

/// The host of the absolute URL `s` as it appears in the serialization, or
/// `None` where `s` does not parse or has no host.
pub uninterp spec fn url_host_of(s: Seq<char>) -> Option<Seq<char>>;

/// The registrable domain name of the host of `s`: `None` where `s` does not
/// parse, has no host, or the host is an IP address.
pub uninterp spec fn url_domain_of(s: Seq<char>) -> Option<Seq<char>>;

/// The lowercased scheme of the absolute URL `s`, or `None` where `s` does
/// not parse.
pub uninterp spec fn url_scheme_of(s: Seq<char>) -> Option<Seq<char>>;

/// The port written explicitly in the absolute URL `s`, where `s` parses.
pub uninterp spec fn url_explicit_port_of(s: Seq<char>) -> Option<u16>;

/// The explicit port of `s`, or the scheme's well-known default.
pub uninterp spec fn url_port_or_default_of(s: Seq<char>) -> Option<u16>;

/// The path of the absolute URL `s`, or `None` where `s` does not parse.
pub uninterp spec fn url_path_of(s: Seq<char>) -> Option<Seq<char>>;

pub open spec fn view_opt(o: Option<String>) -> Option<Seq<char>> {
    match o {
        Some(s) => Some(s@),
        None => None,
    }
}

/// Relies on `url::Url::parse` and the `From<Url> for String` serialization:
/// parsing yields the normalized serialization, which itself reparses to the
/// same serialization, is nonempty, and carries no surrounding whitespace.
#[verifier::external_body]
pub(crate) fn url_parse_norm(s: &str) -> (r: Option<String>)
    ensures
        view_opt(r) == url_norm(s@),
        r matches Some(u) ==> url_norm(u@) == Some(u@) && trimmed(u@) == u@ && u@.len() > 0,
{
    match url::Url::parse(s) {
        Ok(u) => Some(String::from(u)),
        Err(_) => None,
    }
}

/// Relies on `url::Url::join` (WHATWG reference resolution against a parsed
/// base). The result is again a normalized serialization with the same
/// round-trip properties as `url_parse_norm`.
#[verifier::external_body]
pub(crate) fn url_join_exec(base: &str, rel: &str) -> (r: Option<String>)
    ensures
        view_opt(r) == url_join_norm(base@, rel@),
        r matches Some(u) ==> url_norm(u@) == Some(u@) && trimmed(u@) == u@ && u@.len() > 0,
{
    match url::Url::parse(base) {
        Ok(b) => match b.join(rel) {
            Ok(u) => Some(String::from(u)),
            Err(_) => None,
        },
        Err(_) => None,
    }
}

/// Relies on `url::Url::host_str`: the serialized host of the URL.
#[verifier::external_body]
pub(crate) fn url_host(s: &str) -> (r: Option<String>)
    ensures
        view_opt(r) == url_host_of(s@),
        url_norm(s@) is None ==> r is None,
{
    match url::Url::parse(s) {
        Ok(u) => u.host_str().map(|h| String::from_str(h)),
        Err(_) => None,
    }
}

/// Relies on `url::Url::domain`: the host when it is a domain name rather
/// than an IP address.
#[verifier::external_body]
pub(crate) fn url_domain(s: &str) -> (r: Option<String>)
    ensures
        view_opt(r) == url_domain_of(s@),
        url_norm(s@) is None ==> r is None,
        url_host_of(s@) is None ==> r is None,
{
    match url::Url::parse(s) {
        Ok(u) => u.domain().map(|h| String::from_str(h)),
        Err(_) => None,
    }
}

/// Relies on `url::Url::scheme`: the lowercased scheme of the URL.
#[verifier::external_body]
pub(crate) fn url_scheme(s: &str) -> (r: Option<String>)
    ensures
        view_opt(r) == url_scheme_of(s@),
        r is Some <==> url_norm(s@) is Some,
{
    match url::Url::parse(s) {
        Ok(u) => Some(String::from_str(u.scheme())),
        Err(_) => None,
    }
}

/// Relies on `url::Url::port`: the port written in the URL, if any.
#[verifier::external_body]
pub(crate) fn url_explicit_port(s: &str) -> (r: Option<u16>)
    ensures
        url_norm(s@) is Some ==> r == url_explicit_port_of(s@),
        url_norm(s@) is None ==> r is None,
{
    match url::Url::parse(s) {
        Ok(u) => u.port(),
        Err(_) => None,
    }
}

/// Relies on `url::Url::port_or_known_default`: the explicit port, or the
/// scheme's well-known default port.
#[verifier::external_body]
pub(crate) fn url_port_or_default(s: &str) -> (r: Option<u16>)
    ensures
        url_norm(s@) is Some ==> r == url_port_or_default_of(s@),
        url_norm(s@) is None ==> r is None,
{
    match url::Url::parse(s) {
        Ok(u) => u.port_or_known_default(),
        Err(_) => None,
    }
}

/// Relies on `url::Url::path`: the serialized path of the URL.
#[verifier::external_body]
pub(crate) fn url_path(s: &str) -> (r: Option<String>)
    ensures
        view_opt(r) == url_path_of(s@),
        r is Some <==> url_norm(s@) is Some,
{
    match url::Url::parse(s) {
        Ok(u) => Some(String::from_str(u.path())),
        Err(_) => None,
    }
}

// ---------------------------------------------------------------------------
// URL normalization
// ---------------------------------------------------------------------------

/// The index of the first occurrence of any of `/`, `?`, `#` in `h`, or the
/// length of `h` when none occurs.
pub open spec fn host_portion_end(h: Seq<char>, i: int) -> int
    decreases h.len() - i,
{
    if i < 0 || i >= h.len() {
        h.len() as int
    } else if h[i] == '/' || h[i] == '?' || h[i] == '#' {
        i
    } else {
        host_portion_end(h, i + 1)
    }
}

pub open spec fn is_ascii_digit(c: char) -> bool {
    '0' <= c && c <= '9'
}

/// The heuristic that treats a schemeless href such as `example.com/x` as a
/// host rather than a relative path: no leading `/`, `.`, `?` or `#`, no
/// whitespace anywhere, and a host portion that contains a dot, opens an IPv6
/// bracket, or is digit-led with a colon.
pub open spec fn domain_ish(h: Seq<char>) -> bool {
    let hp = h.take(host_portion_end(h, 0));
    &&& h.len() > 0
    &&& !(h[0] == '/' || h[0] == '.' || h[0] == '?' || h[0] == '#')
    &&& (forall|i: int| 0 <= i < h.len() ==> !is_space_char(#[trigger] h[i]))
    &&& hp.len() > 0
    &&& (hp.contains('.') || hp[0] == '[' || (is_ascii_digit(hp[0]) && hp.contains(':')))
}

/// What `normalize_url` returns, as a function of the normalized origin and
/// the raw href: the empty href maps to the origin; an absolute href to its
/// own normalization; a protocol-relative or domain-like href to the origin's
/// scheme applied to it; anything else to reference resolution against the
/// origin. Resolution gives fragment-only references the origin's path and
/// query with the new fragment, and query-only references the origin's path
/// with the new query and no fragment.
pub open spec fn spec_normalize(origin: Seq<char>, href: Seq<char>) -> Option<Seq<char>> {
    let h = trimmed(href);
    if h.len() == 0 {
        Some(origin)
    } else if url_norm(h) is Some {
        url_norm(h)
    } else if h.len() >= 2 && h[0] == '/' && h[1] == '/' {
        url_norm(scheme_prefix(origin) + seq![':'] + h)
    } else if domain_ish(h) {
        url_norm(scheme_prefix(origin) + seq![':', '/', '/'] + h)
    } else {
        url_join_norm(origin, h)
    }
}

/// The characters of `s` before its first `:`, or all of `s` when it has
/// none.
pub open spec fn scheme_prefix(s: Seq<char>) -> Seq<char> {
    s.take(colon_index(s, 0))
}

pub open spec fn colon_index(s: Seq<char>, i: int) -> int
    decreases s.len() - i,
{
    if i < 0 || i >= s.len() {
        s.len() as int
    } else if s[i] == ':' {
        i
    } else {
        colon_index(s, i + 1)
    }
}

fn scheme_prefix_exec(s: &str) -> (r: String)
    ensures
        r@ == scheme_prefix(s@),
{
    let len = s.unicode_len();
    let mut i: usize = 0;
    while i < len && s.get_char(i) != ':'
        invariant
            0 <= i <= len,
            len == s@.len(),
            forall|k: int| 0 <= k < i ==> s@[k] != ':',
        decreases len - i,
    {
        i = i + 1;
    }
    proof {
        lemma_colon_index(s@, i as int);
    }
    String::from_str(s.substring_char(0, i))
}

proof fn lemma_colon_index(s: Seq<char>, i: int)
    requires
        0 <= i <= s.len(),
        forall|k: int| 0 <= k < i ==> s[k] != ':',
        i == s.len() || s[i] == ':',
    ensures
        colon_index(s, 0) == i,
{
    lemma_colon_index_from(s, 0, i);
}

proof fn lemma_colon_index_from(s: Seq<char>, j: int, i: int)
    requires
        0 <= j <= i <= s.len(),
        forall|k: int| j <= k < i ==> s[k] != ':',
        i == s.len() || s[i] == ':',
    ensures
        colon_index(s, j) == i,
    decreases i - j,
{
    if j < i {
        lemma_colon_index_from(s, j + 1, i);
    }
}

fn host_portion_end_exec(h: &str) -> (r: usize)
    ensures
        r == host_portion_end(h@, 0),
        0 <= r <= h@.len(),
{
    let len = h.unicode_len();
    let mut i: usize = 0;
    while i < len && h.get_char(i) != '/' && h.get_char(i) != '?' && h.get_char(i) != '#'
        invariant
            0 <= i <= len,
            len == h@.len(),
            forall|k: int| 0 <= k < i ==> h@[k] != '/' && h@[k] != '?' && h@[k] != '#',
        decreases len - i,
    {
        i = i + 1;
    }
    proof {
        lemma_host_portion_end_from(h@, 0, i as int);
    }
    i
}

proof fn lemma_host_portion_end_from(h: Seq<char>, j: int, i: int)
    requires
        0 <= j <= i <= h.len(),
        forall|k: int| j <= k < i ==> h[k] != '/' && h[k] != '?' && h[k] != '#',
        i == h.len() || h[i] == '/' || h[i] == '?' || h[i] == '#',
    ensures
        host_portion_end(h, j) == i,
    decreases i - j,
{
    if j < i {
        lemma_host_portion_end_from(h, j + 1, i);
    }
}

fn domain_ish_exec(h: &str) -> (r: bool)
    ensures
        r == domain_ish(h@),
{
    let len = h.unicode_len();
    if len == 0 {
        return false;
    }
    let c0 = h.get_char(0);
    if c0 == '/' || c0 == '.' || c0 == '?' || c0 == '#' {
        return false;
    }
    let mut i: usize = 0;
    while i < len
        invariant
            0 <= i <= len,
            len == h@.len(),
            forall|k: int| 0 <= k < i ==> !is_space_char(#[trigger] h@[k]),
        decreases len - i,
    {
        if is_space(h.get_char(i)) {
            return false;
        }
        i = i + 1;
    }
    let hp_end = host_portion_end_exec(h);
    if hp_end == 0 {
        return false;
    }
    let ghost hp = h@.take(host_portion_end(h@, 0));
    if h.get_char(0) == '[' {
        assert(hp[0] == h@[0]);
        return true;
    }
    let digit_led = '0' <= c0 && c0 <= '9';
    let mut j: usize = 0;
    let mut has_dot = false;
    let mut has_colon = false;
    while j < hp_end
        invariant
            0 <= j <= hp_end <= h@.len(),
            hp_end == host_portion_end(h@, 0),
            hp == h@.take(hp_end as int),
            has_dot == hp.subrange(0, j as int).contains('.'),
            has_colon == hp.subrange(0, j as int).contains(':'),
        decreases hp_end - j,
    {
        let c = h.get_char(j);
        proof {
            assert(hp[j as int] == h@[j as int]);
            assert(hp.subrange(0, j + 1).drop_last() == hp.subrange(0, j as int));
            assert(hp.subrange(0, j + 1).last() == hp[j as int]);
        }
        if c == '.' {
            has_dot = true;
        }
        if c == ':' {
            has_colon = true;
        }
        j = j + 1;
    }
    proof {
        assert(hp.subrange(0, hp_end as int) == hp);
    }
    has_dot || (digit_led && has_colon)
}

/// Resolves an href against a normalized origin URL.
///
/// `origin` must already be a normalized absolute-URL serialization; callers
/// that hold a raw origin string go through [`normalize_href`]. The result is
/// itself normalized: applying the function to its own output returns the
/// output unchanged.
pub fn normalize_url(origin: &str, href: &str) -> (r: Result<String, AppError>)
    requires
        url_norm(origin@) == Some(origin@),
        trimmed(origin@) == origin@,
        origin@.len() > 0,
    ensures
        match r {
            Ok(u) => spec_normalize(origin@, href@) == Some(u@)
                && spec_normalize(origin@, u@) == Some(u@)
                && url_norm(u@) == Some(u@),
            Err(e) => spec_normalize(origin@, href@) is None && e == AppError::UrlParseError,
        },
{
    let h = trim_str(href);
    if h.as_str().unicode_len() == 0 {
        let out = String::from_str(origin);
        assert(spec_normalize(origin@, out@) == Some(origin@));
        return Ok(out);
    }
    match url_parse_norm(h.as_str()) {
        Some(u) => {
            assert(spec_normalize(origin@, u@) == Some(u@)) by {
                assert(trimmed(u@) == u@);
            }
            Ok(u)
        },
        None => {
            let hlen = h.as_str().unicode_len();
            if hlen >= 2 && h.as_str().get_char(0) == '/' && h.as_str().get_char(1) == '/' {
                let mut cand = scheme_prefix_exec(origin);
                push_char(&mut cand, ':');
                cand.append(h.as_str());
                assert(cand@ == scheme_prefix(origin@) + seq![':'] + h@);
                match url_parse_norm(cand.as_str()) {
                    Some(u) => {
                        assert(spec_normalize(origin@, u@) == Some(u@)) by {
                            assert(trimmed(u@) == u@);
                        }
                        Ok(u)
                    },
                    None => Err(AppError::UrlParseError),
                }
            } else if domain_ish_exec(h.as_str()) {
                let mut cand = scheme_prefix_exec(origin);
                push_char(&mut cand, ':');
                push_char(&mut cand, '/');
                push_char(&mut cand, '/');
                cand.append(h.as_str());
                assert(cand@ == scheme_prefix(origin@) + seq![':', '/', '/'] + h@);
                match url_parse_norm(cand.as_str()) {
                    Some(u) => {
                        assert(spec_normalize(origin@, u@) == Some(u@)) by {
                            assert(trimmed(u@) == u@);
                        }
                        Ok(u)
                    },
                    None => Err(AppError::UrlParseError),
                }
            } else {
                match url_join_exec(origin, h.as_str()) {
                    Some(u) => {
                        assert(spec_normalize(origin@, u@) == Some(u@)) by {
                            assert(trimmed(u@) == u@);
                        }
                        Ok(u)
                    },
                    None => Err(AppError::UrlParseError),
                }
            }
        },
    }
}

/// Resolves an href against a raw origin string, normalizing the origin
/// first. Fails exactly where the origin does not parse as an absolute URL or
/// where resolution of the href fails.
pub fn normalize_href(origin: &str, href: &str) -> (r: Result<String, AppError>)
    ensures
        match r {
            Ok(u) => url_norm(origin@) is Some
                && spec_normalize(url_norm(origin@).unwrap(), href@) == Some(u@)
                && spec_normalize(url_norm(origin@).unwrap(), u@) == Some(u@),
            Err(e) => (url_norm(origin@) is None
                || spec_normalize(url_norm(origin@).unwrap(), href@) is None)
                && e == AppError::UrlParseError,
        },
{
    match url_parse_norm(origin) {
        Some(o) => normalize_url(o.as_str(), href),
        None => Err(AppError::UrlParseError),
    }
}

// ---------------------------------------------------------------------------
// User agent
// ---------------------------------------------------------------------------

/// The user agent advertised when none is configured: package name and
/// version.
pub open spec fn default_user_agent() -> Seq<char> {
    "aetherscope - 0.1.0"@
}

/// The configured user agent, or the package default.
pub fn get_user_agent(user_agent: Option<String>) -> (r: String)
    ensures
        match user_agent {
            Some(u) => r@ == u@,
            None => r@ == default_user_agent(),
        },
{
    match user_agent {
        Some(u) => u,
        None => String::from_str("aetherscope - 0.1.0"),
    }
}

} // verus!
