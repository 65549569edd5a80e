use vstd::prelude::*;
use crate::error::AppError;
use crate::reader::{
    StreamReader, CharStep, MatchStep, UntilStep, SearchStep, spec_read_char, spec_match_next,
    spec_until, spec_search, lemma_read_char_advances,
};
use crate::web::{normalize_url, spec_normalize, url_norm, trimmed, chars_to_string};

verus! {

// ---------------------------------------------------------------------------
// Character classes
// ---------------------------------------------------------------------------

/// The RFC 3986 set of characters that may appear in a URL.
pub open spec fn is_legal_url_char(c: char) -> bool {
    ('A' <= c && c <= 'Z') || ('a' <= c && c <= 'z') || ('0' <= c && c <= '9') || c == '-'
        || c == '.' || c == '_' || c == '~' || c == ':' || c == '/' || c == '?' || c == '#'
        || c == '[' || c == ']' || c == '@' || c == '!' || c == '$' || c == '%' || c == '&'
        || c == '\'' || c == '(' || c == ')' || c == '*' || c == '+' || c == ',' || c == ';'
        || c == '='
}

pub open spec fn legal_url_pred() -> spec_fn(char) -> bool {
    |c: char| is_legal_url_char(c)
}

fn legal_url_char(c: char) -> (r: bool)
    ensures
        r == is_legal_url_char(c),
{
    ('A' <= c && c <= 'Z') || ('a' <= c && c <= 'z') || ('0' <= c && c <= '9') || c == '-'
        || c == '.' || c == '_' || c == '~' || c == ':' || c == '/' || c == '?' || c == '#'
        || c == '[' || c == ']' || c == '@' || c == '!' || c == '$' || c == '%' || c == '&'
        || c == '\'' || c == '(' || c == ')' || c == '*' || c == '+' || c == ',' || c == ';'
        || c == '='
}

// ---------------------------------------------------------------------------
// Lexicographic order on strings
// ---------------------------------------------------------------------------

/// Strict lexicographic order by Unicode scalar value.
pub open spec fn lex_lt(a: Seq<char>, b: Seq<char>) -> bool
    decreases a.len(),
{
    if b.len() == 0 {
        false
    } else if a.len() == 0 {
        true
    } else if a[0] != b[0] {
        (a[0] as u32) < (b[0] as u32)
    } else {
        lex_lt(a.skip(1), b.skip(1))
    }
}

pub proof fn lemma_lex_irrefl(a: Seq<char>)
    ensures
        !lex_lt(a, a),
    decreases a.len(),
{
    if a.len() > 0 {
        lemma_lex_irrefl(a.skip(1));
    }
}

pub proof fn lemma_lex_total(a: Seq<char>, b: Seq<char>)
    ensures
        lex_lt(a, b) || lex_lt(b, a) || a == b,
    decreases a.len(),
{
    if a.len() == 0 {
        if b.len() == 0 {
            assert(a =~= b);
        }
    } else if b.len() == 0 {
    } else if a[0] != b[0] {
        if (a[0] as u32) == (b[0] as u32) {
            vstd::utf8::char_u32_cast(a[0], a[0] as u32);
            vstd::utf8::char_u32_cast(b[0], b[0] as u32);
        }
    } else {
        lemma_lex_total(a.skip(1), b.skip(1));
        if !lex_lt(a.skip(1), b.skip(1)) && !lex_lt(b.skip(1), a.skip(1)) {
            assert(a.skip(1) == b.skip(1));
            assert(a =~= b) by {
                assert(a.len() == b.len());
                assert(forall|i: int| 1 <= i < a.len() ==> a[i] == a.skip(1)[i - 1]
                    && b[i] == b.skip(1)[i - 1]);
            }
        }
    }
}

pub proof fn lemma_lex_trans(a: Seq<char>, b: Seq<char>, c: Seq<char>)
    requires
        lex_lt(a, b),
        lex_lt(b, c),
    ensures
        lex_lt(a, c),
    decreases a.len(),
{
    if a.len() == 0 {
    } else if a[0] == b[0] {
        if b[0] == c[0] {
            lemma_lex_trans(a.skip(1), b.skip(1), c.skip(1));
        }
    }
}

/// `true` exactly where `a` precedes `b` lexicographically.
pub fn str_lt(a: &str, b: &str) -> (r: bool)
    ensures
        r == lex_lt(a@, b@),
{
    let alen = a.unicode_len();
    let blen = b.unicode_len();
    let mut i: usize = 0;
    proof {
        assert(a@.skip(0) =~= a@);
        assert(b@.skip(0) =~= b@);
    }
    loop
        invariant
            0 <= i,
            i <= alen,
            i <= blen,
            alen == a@.len(),
            blen == b@.len(),
            lex_lt(a@, b@) == lex_lt(a@.skip(i as int), b@.skip(i as int)),
        decreases alen - i,
    {
        if i >= blen {
            return false;
        }
        if i >= alen {
            return true;
        }
        let ca = a.get_char(i);
        let cb = b.get_char(i);
        proof {
            assert(a@.skip(i as int)[0] == a@[i as int]);
            assert(b@.skip(i as int)[0] == b@[i as int]);
        }
        if ca != cb {
            return (ca as u32) < (cb as u32);
        }
        proof {
            assert(a@.skip(i as int).skip(1) =~= a@.skip(i + 1));
            assert(b@.skip(i as int).skip(1) =~= b@.skip(i + 1));
        }
        i = i + 1;
    }
}

/// `true` exactly where the two strings spell the same characters.
pub fn str_eq(a: &str, b: &str) -> (r: bool)
    ensures
        r == (a@ == b@),
{
    let lt = str_lt(a, b);
    let gt = str_lt(b, a);
    proof {
        lemma_lex_total(a@, b@);
        lemma_lex_irrefl(a@);
        if a@ == b@ {
            assert(!lex_lt(a@, b@));
        }
    }
    !lt && !gt
}

/// Every pair of entries is strictly ordered: sorted with no duplicates.
pub open spec fn strict_sorted(s: Seq<Seq<char>>) -> bool {
    forall|i: int, j: int| 0 <= i < j < s.len() ==> lex_lt(s[i], s[j])
}

/// Sorts the strings lexicographically and removes duplicates: the result is
/// strictly sorted and holds exactly the character sequences of the input.
pub fn sort_dedup_strings(v: Vec<String>) -> (r: Vec<String>)
    ensures
        strict_sorted(r.deep_view()),
        forall|x: Seq<char>| r.deep_view().contains(x) <==> v.deep_view().contains(x),
{
    let mut out: Vec<String> = Vec::new();
    let mut i: usize = 0;
    proof {
        assert(forall|x: Seq<char>| !v.deep_view().subrange(0, 0).contains(x));
    }
    while i < v.len()
        invariant
            0 <= i <= v@.len(),
            v.deep_view().len() == v@.len(),
            strict_sorted(out.deep_view()),
            forall|x: Seq<char>| out.deep_view().contains(x) <==> v.deep_view().subrange(
                0,
                i as int,
            ).contains(x),
        decreases v@.len() - i,
    {
        let s: String = v[i].clone();
        proof {
            assert(v.deep_view()[i as int] == v@[i as int]@);
            assert(s@ == v.deep_view()[i as int]);
        }
        let mut j: usize = 0;
        while j < out.len() && str_lt(out[j].as_str(), s.as_str())
            invariant
                0 <= j <= out@.len(),
                out.deep_view().len() == out@.len(),
                forall|k: int| 0 <= k < j ==> lex_lt(#[trigger] out.deep_view()[k], s@),
            decreases out@.len() - j,
        {
            proof {
                assert(out.deep_view()[j as int] == out@[j as int]@);
            }
            j = j + 1;
        }
        let mut duplicate = false;
        if j < out.len() {
            proof {
                assert(out.deep_view()[j as int] == out@[j as int]@);
            }
            if str_eq(out[j].as_str(), s.as_str()) {
                duplicate = true;
            }
        }
        let ghost out_pre = out.deep_view();
        let ghost sv = s@;
        if !duplicate {
            proof {
                if j < out_pre.len() {
                    assert(!lex_lt(out_pre[j as int], sv));
                    assert(out_pre[j as int] != sv);
                    lemma_lex_total(out_pre[j as int], sv);
                    assert(lex_lt(sv, out_pre[j as int]));
                }
            }
            out.insert(j, s);
            proof {
                let out_post = out.deep_view();
                assert(out_post =~= out_pre.insert(j as int, sv)) by {
                    assert(out_post.len() == out_pre.len() + 1);
                    assert(forall|k: int| 0 <= k < out_post.len() ==> out_post[k] == out@[k]@);
                }
                // sortedness of the extended list
                assert forall|m: int, n: int| 0 <= m < n < out_post.len() implies lex_lt(
                    out_post[m],
                    out_post[n],
                ) by {
                    let jj = j as int;
                    if n < jj {
                        assert(out_post[m] == out_pre[m] && out_post[n] == out_pre[n]);
                    } else if m > jj {
                        assert(out_post[m] == out_pre[m - 1] && out_post[n] == out_pre[n - 1]);
                    } else if m < jj && n == jj {
                        assert(out_post[m] == out_pre[m] && out_post[n] == sv);
                    } else if m == jj {
                        assert(out_post[m] == sv && out_post[n] == out_pre[n - 1]);
                        assert(lex_lt(sv, out_pre[jj]));
                        if n - 1 > jj {
                            assert(lex_lt(out_pre[jj], out_pre[n - 1]));
                            lemma_lex_trans(sv, out_pre[jj], out_pre[n - 1]);
                        }
                    } else if m < jj && n > jj {
                        assert(out_post[m] == out_pre[m] && out_post[n] == out_pre[n - 1]);
                        if n - 1 == jj {
                            assert(lex_lt(out_pre[m], sv));
                            lemma_lex_trans(out_pre[m], sv, out_pre[jj]);
                        } else {
                            assert(lex_lt(out_pre[m], out_pre[n - 1]));
                        }
                    }
                }
                // membership
                assert forall|x: Seq<char>| out_post.contains(x) <==> (out_pre.contains(x) || x
                    == sv) by {
                    if out_post.contains(x) {
                        let k = choose|k: int| 0 <= k < out_post.len() && out_post[k] == x;
                        if k < j as int {
                            assert(out_pre[k] == x);
                        } else if k == j as int {
                        } else {
                            assert(out_pre[k - 1] == x);
                        }
                    }
                    if out_pre.contains(x) {
                        let k = choose|k: int| 0 <= k < out_pre.len() && out_pre[k] == x;
                        if k < j as int {
                            assert(out_post[k] == x);
                        } else {
                            assert(out_post[k + 1] == x);
                        }
                    }
                    if x == sv {
                        assert(out_post[j as int] == x);
                    }
                }
            }
        } else {
            proof {
                assert(out_pre.contains(sv)) by {
                    assert(out_pre[j as int] == sv);
                }
            }
        }
        i = i + 1;
        proof {
            let pre = v.deep_view().subrange(0, i - 1);
            let cur = v.deep_view().subrange(0, i as int);
            assert(cur =~= pre.push(sv));
            assert forall|x: Seq<char>| cur.contains(x) <==> (pre.contains(x) || x == sv) by {
                if cur.contains(x) {
                    let k = choose|k: int| 0 <= k < cur.len() && cur[k] == x;
                    if k < cur.len() - 1 {
                        assert(pre[k] == x);
                    }
                }
                if pre.contains(x) {
                    let k = choose|k: int| 0 <= k < pre.len() && pre[k] == x;
                    assert(cur[k] == x);
                }
                if x == sv {
                    assert(cur[cur.len() - 1] == x);
                }
            }
        }
    }
    proof {
        assert(v.deep_view().subrange(0, v@.len() as int) =~= v.deep_view());
    }
    out
}

// ---------------------------------------------------------------------------
// The machine, in specification
// ---------------------------------------------------------------------------

/// The outcome of scanning for the next trigger character, `h` or `<`.
pub enum ScanStep {
    Trigger(char, int),
    ScEof,
    ScInvalid,
}

pub open spec fn spec_scan(bytes: Seq<u8>, pos: int) -> ScanStep
    decreases bytes.len() - pos,
    when pos <= bytes.len()
    via spec_scan_decreases
{
    match spec_read_char(bytes, pos) {
        CharStep::Eof => ScanStep::ScEof,
        CharStep::Invalid => ScanStep::ScInvalid,
        CharStep::Okc(c, p) => if c == 'h' || c == '<' {
            ScanStep::Trigger(c, p)
        } else {
            spec_scan(bytes, p)
        },
    }
}

#[via_fn]
proof fn spec_scan_decreases(bytes: Seq<u8>, pos: int) {
    lemma_read_char_advances(bytes, pos);
}

/// The outcome of one recognition attempt: a URL to emit and the position to
/// resume from, a position to resume from with nothing emitted, a clean end
/// of input, malformed bytes, or a failed href resolution.
pub enum EmitStep {
    Emit(Seq<char>, int),
    Skip(int),
    EEof,
    EInvalid,
    ENormFail,
}

pub open spec fn link_prefix(secure: bool) -> Seq<char> {
    if secure {
        seq!['h', 't', 't', 'p', 's', ':', '/', '/']
    } else {
        seq!['h', 't', 't', 'p', ':', '/', '/']
    }
}

/// After `http`/`https` and the colon: expect `//`, then take the greedy run
/// of URL characters; a nonempty run is emitted with the scheme prefix.
pub open spec fn spec_link_tail(bytes: Seq<u8>, pos: int, secure: bool) -> EmitStep {
    match spec_match_next(bytes, pos, seq!['/', '/']) {
        MatchStep::MEof(_) => EmitStep::EEof,
        MatchStep::MInvalid(_) => EmitStep::EInvalid,
        MatchStep::Mismatch(_) => EmitStep::Skip(pos),
        MatchStep::Matched(p) => match spec_until(bytes, p, legal_url_pred(), true) {
            UntilStep::UInvalid(_) => EmitStep::EInvalid,
            UntilStep::Done(run, q) => if run.len() > 0 {
                EmitStep::Emit(link_prefix(secure) + run, q)
            } else {
                EmitStep::Skip(q)
            },
        },
    }
}

/// Recognition of a bare URL after an `h` was consumed: `ttp`, then `s:` or
/// `:`, then `//` and the URL character run.
pub open spec fn spec_read_link(bytes: Seq<u8>, pos: int) -> EmitStep {
    match spec_match_next(bytes, pos, seq!['t', 't', 'p']) {
        MatchStep::MEof(_) => EmitStep::EEof,
        MatchStep::MInvalid(_) => EmitStep::EInvalid,
        MatchStep::Mismatch(_) => EmitStep::Skip(pos),
        MatchStep::Matched(p1) => match spec_read_char(bytes, p1) {
            CharStep::Eof => EmitStep::EEof,
            CharStep::Invalid => EmitStep::EInvalid,
            CharStep::Okc(c, p2) => if c == 's' {
                match spec_match_next(bytes, p2, seq![':']) {
                    MatchStep::MEof(_) => EmitStep::EEof,
                    MatchStep::MInvalid(_) => EmitStep::EInvalid,
                    MatchStep::Mismatch(_) => EmitStep::Skip(p2),
                    MatchStep::Matched(p3) => spec_link_tail(bytes, p3, true),
                }
            } else if c == ':' {
                spec_link_tail(bytes, p2, false)
            } else {
                EmitStep::Skip(p1)
            },
        },
    }
}

/// Recognition of an anchor href after a `<` was consumed: `a`, a scan for
/// `href=` before the closing `>`, an opening quote, the URL character run,
/// and resolution against the origin.
pub open spec fn spec_read_tag(bytes: Seq<u8>, pos: int, origin: Seq<char>) -> EmitStep {
    match spec_match_next(bytes, pos, seq!['a']) {
        MatchStep::MEof(_) => EmitStep::EEof,
        MatchStep::MInvalid(_) => EmitStep::EInvalid,
        MatchStep::Mismatch(_) => EmitStep::Skip(pos),
        MatchStep::Matched(p1) => match spec_search(
            bytes,
            p1,
            seq!['h', 'r', 'e', 'f', '='],
            '>',
            0,
        ) {
            SearchStep::SEof(_) => EmitStep::EEof,
            SearchStep::SInvalid(_) => EmitStep::EInvalid,
            SearchStep::NotFound(_) => EmitStep::Skip(p1),
            SearchStep::Found(p2) => match spec_read_char(bytes, p2) {
                CharStep::Eof => EmitStep::EEof,
                CharStep::Invalid => EmitStep::EInvalid,
                CharStep::Okc(c, p3) => if c == '"' || c == '\'' {
                    match spec_until(bytes, p3, legal_url_pred(), true) {
                        UntilStep::UInvalid(_) => EmitStep::EInvalid,
                        UntilStep::Done(run, p4) => if run.len() > 0 {
                            match spec_normalize(origin, run) {
                                Some(u) => EmitStep::Emit(u, p4),
                                None => EmitStep::ENormFail,
                            }
                        } else {
                            EmitStep::Skip(p4)
                        },
                    }
                } else {
                    EmitStep::Skip(p2)
                },
            },
        },
    }
}

// ---------------------------------------------------------------------------
// Bounds of the specification pieces
// ---------------------------------------------------------------------------

pub proof fn lemma_match_next_bounds(bytes: Seq<u8>, pos: int, pattern: Seq<char>)
    requires
        0 <= pos <= bytes.len(),
    ensures
        match spec_match_next(bytes, pos, pattern) {
            MatchStep::Matched(p) => pos <= p <= bytes.len(),
            MatchStep::Mismatch(p) => pos <= p <= bytes.len(),
            MatchStep::MEof(p) => pos <= p <= bytes.len(),
            MatchStep::MInvalid(p) => pos <= p <= bytes.len(),
        },
    decreases pattern.len(),
{
    if pattern.len() > 0 {
        lemma_read_char_advances(bytes, pos);
        match spec_read_char(bytes, pos) {
            CharStep::Okc(c, p) => {
                if c == pattern[0] {
                    lemma_match_next_bounds(bytes, p, pattern.skip(1));
                }
            },
            _ => {},
        }
    }
}

pub proof fn lemma_until_bounds(bytes: Seq<u8>, pos: int, want: spec_fn(char) -> bool, keep: bool)
    requires
        0 <= pos <= bytes.len(),
    ensures
        match spec_until(bytes, pos, want, keep) {
            UntilStep::Done(_, q) => pos <= q <= bytes.len(),
            UntilStep::UInvalid(q) => pos <= q <= bytes.len(),
        },
    decreases bytes.len() - pos,
{
    lemma_read_char_advances(bytes, pos);
    match spec_read_char(bytes, pos) {
        CharStep::Okc(c, p) => {
            if want(c) == keep {
                lemma_until_bounds(bytes, p, want, keep);
            }
        },
        _ => {},
    }
}

pub proof fn lemma_search_bounds(
    bytes: Seq<u8>,
    pos: int,
    pattern: Seq<char>,
    term: char,
    idx: int,
)
    requires
        0 <= pos <= bytes.len(),
        0 <= idx < pattern.len(),
    ensures
        match spec_search(bytes, pos, pattern, term, idx) {
            SearchStep::Found(p) => pos <= p <= bytes.len(),
            SearchStep::NotFound(p) => pos <= p <= bytes.len(),
            SearchStep::SEof(p) => pos <= p <= bytes.len(),
            SearchStep::SInvalid(p) => pos <= p <= bytes.len(),
        },
    decreases bytes.len() - pos,
{
    lemma_read_char_advances(bytes, pos);
    match spec_read_char(bytes, pos) {
        CharStep::Okc(c, p) => {
            if c != term {
                if c == pattern[idx] {
                    if idx + 1 < pattern.len() {
                        lemma_search_bounds(bytes, p, pattern, term, idx + 1);
                    }
                } else {
                    lemma_search_bounds(bytes, p, pattern, term, 0);
                }
            }
        },
        _ => {},
    }
}

pub proof fn lemma_link_tail_bounds(bytes: Seq<u8>, pos: int, secure: bool)
    requires
        0 <= pos <= bytes.len(),
    ensures
        match spec_link_tail(bytes, pos, secure) {
            EmitStep::Emit(_, p) => pos <= p <= bytes.len(),
            EmitStep::Skip(p) => pos <= p <= bytes.len(),
            _ => true,
        },
{
    lemma_match_next_bounds(bytes, pos, seq!['/', '/']);
    match spec_match_next(bytes, pos, seq!['/', '/']) {
        MatchStep::Matched(p) => {
            lemma_until_bounds(bytes, p, legal_url_pred(), true);
        },
        _ => {},
    }
}

pub proof fn lemma_read_link_bounds(bytes: Seq<u8>, pos: int)
    requires
        0 <= pos <= bytes.len(),
    ensures
        match spec_read_link(bytes, pos) {
            EmitStep::Emit(_, p) => pos <= p <= bytes.len(),
            EmitStep::Skip(p) => pos <= p <= bytes.len(),
            _ => true,
        },
{
    lemma_match_next_bounds(bytes, pos, seq!['t', 't', 'p']);
    match spec_match_next(bytes, pos, seq!['t', 't', 'p']) {
        MatchStep::Matched(p1) => {
            lemma_read_char_advances(bytes, p1);
            match spec_read_char(bytes, p1) {
                CharStep::Okc(c, p2) => {
                    if c == 's' {
                        lemma_match_next_bounds(bytes, p2, seq![':']);
                        match spec_match_next(bytes, p2, seq![':']) {
                            MatchStep::Matched(p3) => {
                                lemma_link_tail_bounds(bytes, p3, true);
                            },
                            _ => {},
                        }
                    } else if c == ':' {
                        lemma_link_tail_bounds(bytes, p2, false);
                    }
                },
                _ => {},
            }
        },
        _ => {},
    }
}

pub proof fn lemma_read_tag_bounds(bytes: Seq<u8>, pos: int, origin: Seq<char>)
    requires
        0 <= pos <= bytes.len(),
    ensures
        match spec_read_tag(bytes, pos, origin) {
            EmitStep::Emit(_, p) => pos <= p <= bytes.len(),
            EmitStep::Skip(p) => pos <= p <= bytes.len(),
            _ => true,
        },
{
    lemma_match_next_bounds(bytes, pos, seq!['a']);
    match spec_match_next(bytes, pos, seq!['a']) {
        MatchStep::Matched(p1) => {
            lemma_search_bounds(bytes, p1, seq!['h', 'r', 'e', 'f', '='], '>', 0);
            match spec_search(bytes, p1, seq!['h', 'r', 'e', 'f', '='], '>', 0) {
                SearchStep::Found(p2) => {
                    lemma_read_char_advances(bytes, p2);
                    match spec_read_char(bytes, p2) {
                        CharStep::Okc(_, p3) => {
                            lemma_until_bounds(bytes, p3, legal_url_pred(), true);
                        },
                        _ => {},
                    }
                },
                _ => {},
            }
        },
        _ => {},
    }
}

pub proof fn lemma_scan_bounds(bytes: Seq<u8>, pos: int)
    requires
        0 <= pos <= bytes.len(),
    ensures
        match spec_scan(bytes, pos) {
            ScanStep::Trigger(_, p) => pos < p <= bytes.len(),
            _ => true,
        },
    decreases bytes.len() - pos,
{
    lemma_read_char_advances(bytes, pos);
    match spec_read_char(bytes, pos) {
        CharStep::Okc(c, p) => {
            if !(c == 'h' || c == '<') {
                lemma_scan_bounds(bytes, p);
            }
        },
        _ => {},
    }
}

// ---------------------------------------------------------------------------
// The full run
// ---------------------------------------------------------------------------

/// The URIs the machine emits from `pos` onward, in discovery order, or the
/// error that stops it. A clean end of input ends the run normally, wherever
/// it strikes.
pub open spec fn spec_fsm(bytes: Seq<u8>, pos: int, origin: Seq<char>) -> Result<
    Seq<Seq<char>>,
    AppError,
>
    decreases bytes.len() - pos,
    when 0 <= pos <= bytes.len()
    via spec_fsm_decreases
{
    match spec_scan(bytes, pos) {
        ScanStep::ScEof => Ok(Seq::empty()),
        ScanStep::ScInvalid => Err(AppError::InvalidUtf8),
        ScanStep::Trigger(c, p) => {
            let step = if c == 'h' {
                spec_read_link(bytes, p)
            } else {
                spec_read_tag(bytes, p, origin)
            };
            match step {
                EmitStep::EEof => Ok(Seq::empty()),
                EmitStep::EInvalid => Err(AppError::InvalidUtf8),
                EmitStep::ENormFail => Err(AppError::UrlParseError),
                EmitStep::Emit(u, p2) => match spec_fsm(bytes, p2, origin) {
                    Ok(rest) => Ok(seq![u] + rest),
                    Err(e) => Err(e),
                },
                EmitStep::Skip(p2) => spec_fsm(bytes, p2, origin),
            }
        },
    }
}

#[via_fn]
proof fn spec_fsm_decreases(bytes: Seq<u8>, pos: int, origin: Seq<char>) {
    lemma_scan_bounds(bytes, pos);
    match spec_scan(bytes, pos) {
        ScanStep::Trigger(c, p) => {
            if c == 'h' {
                lemma_read_link_bounds(bytes, p);
            } else {
                lemma_read_tag_bounds(bytes, p, origin);
            }
        },
        _ => {},
    }
}

/// The characters spelled by a run of ASCII bytes.
pub open spec fn ascii_chars(bytes: Seq<u8>, from: int) -> Seq<char> {
    Seq::new((bytes.len() - from) as nat, |k: int| bytes[from + k] as char)
}

proof fn lemma_until_all_legal(bytes: Seq<u8>, p: int)
    requires
        0 <= p <= bytes.len(),
        forall|i: int| p <= i < bytes.len() ==> bytes[i] < 0x80 && is_legal_url_char(
            #[trigger] bytes[i] as char,
        ),
    ensures
        spec_until(bytes, p, legal_url_pred(), true) == UntilStep::Done(
            ascii_chars(bytes, p),
            bytes.len() as int,
        ),
    decreases bytes.len() - p,
{
    if p == bytes.len() {
        assert(ascii_chars(bytes, p) =~= Seq::<char>::empty());
    } else {
        assert(spec_read_char(bytes, p) == CharStep::Okc(bytes[p] as char, p + 1));
        lemma_until_all_legal(bytes, p + 1);
        assert(ascii_chars(bytes, p) =~= seq![bytes[p] as char] + ascii_chars(bytes, p + 1));
    }
}

/// A bare URL that runs into the end of the input, with no terminator after
/// it, is still emitted: a document that is exactly `http://` followed by a
/// nonempty run of URL characters yields exactly that URL.
pub proof fn lemma_url_at_eof_is_emitted(bytes: Seq<u8>, origin: Seq<char>)
    requires
        bytes.len() > 7,
        bytes[0] == 'h' as u8 && bytes[1] == 't' as u8 && bytes[2] == 't' as u8 && bytes[3]
            == 'p' as u8 && bytes[4] == ':' as u8 && bytes[5] == '/' as u8 && bytes[6] == '/' as u8,
        forall|i: int| 7 <= i < bytes.len() ==> bytes[i] < 0x80 && is_legal_url_char(
            #[trigger] bytes[i] as char,
        ),
    ensures
        spec_fsm(bytes, 0, origin) == Ok::<Seq<Seq<char>>, AppError>(
            seq![link_prefix(false) + ascii_chars(bytes, 7)],
        ),
{
    assert(spec_read_char(bytes, 0) == CharStep::Okc('h', 1));
    assert(spec_scan(bytes, 0) == ScanStep::Trigger('h', 1));
    assert(spec_read_char(bytes, 1) == CharStep::Okc('t', 2));
    assert(spec_read_char(bytes, 2) == CharStep::Okc('t', 3));
    assert(spec_read_char(bytes, 3) == CharStep::Okc('p', 4));
    assert(spec_match_next(bytes, 4, Seq::<char>::empty()) == MatchStep::Matched(4));
    assert(seq!['p'].skip(1) =~= Seq::<char>::empty());
    assert(spec_match_next(bytes, 3, seq!['p']) == MatchStep::Matched(4));
    assert(seq!['t', 'p'].skip(1) =~= seq!['p']);
    assert(spec_match_next(bytes, 2, seq!['t', 'p']) == MatchStep::Matched(4));
    assert(seq!['t', 't', 'p'].skip(1) =~= seq!['t', 'p']);
    assert(spec_match_next(bytes, 1, seq!['t', 't', 'p']) == MatchStep::Matched(4));
    assert(spec_read_char(bytes, 4) == CharStep::Okc(':', 5));
    assert(spec_read_char(bytes, 5) == CharStep::Okc('/', 6));
    assert(spec_read_char(bytes, 6) == CharStep::Okc('/', 7));
    assert(spec_match_next(bytes, 7, Seq::<char>::empty()) == MatchStep::Matched(7));
    assert(seq!['/'].skip(1) =~= Seq::<char>::empty());
    assert(spec_match_next(bytes, 6, seq!['/']) == MatchStep::Matched(7));
    assert(seq!['/', '/'].skip(1) =~= seq!['/']);
    assert(spec_match_next(bytes, 5, seq!['/', '/']) == MatchStep::Matched(7));
    lemma_until_all_legal(bytes, 7);
    assert(ascii_chars(bytes, 7).len() > 0);
    assert(spec_link_tail(bytes, 5, false) == EmitStep::Emit(
        link_prefix(false) + ascii_chars(bytes, 7),
        bytes.len() as int,
    ));
    assert(spec_read_link(bytes, 1) == EmitStep::Emit(
        link_prefix(false) + ascii_chars(bytes, 7),
        bytes.len() as int,
    ));
    assert(spec_scan(bytes, bytes.len() as int) == ScanStep::ScEof);
    assert(spec_fsm(bytes, bytes.len() as int, origin) == Ok::<Seq<Seq<char>>, AppError>(
        Seq::empty(),
    ));
    assert(seq![link_prefix(false) + ascii_chars(bytes, 7)] + Seq::<Seq<char>>::empty()
        =~= seq![link_prefix(false) + ascii_chars(bytes, 7)]);
}

/// An empty document yields no URIs, whatever the origin.
pub proof fn lemma_fsm_empty_input(origin: Seq<char>)
    ensures
        spec_fsm(Seq::<u8>::empty(), 0, origin) == Ok::<Seq<Seq<char>>, AppError>(
            Seq::<Seq<char>>::empty(),
        ),
{
    assert(spec_scan(Seq::<u8>::empty(), 0) == ScanStep::ScEof);
}

// ---------------------------------------------------------------------------
// The machine, executable
// ---------------------------------------------------------------------------

/// The byte-level URI extractor: a tolerant scanner that finds bare URLs and
/// anchor hrefs in an arbitrary byte stream, resolving hrefs against the
/// origin URL.
pub struct UriExtractorFSM {
    pub reader: StreamReader,
    pub uris: Vec<String>,
    pub origin: String,
}

impl UriExtractorFSM {
    /// The origin is held in normalized form so resolution never re-parses
    /// it.
    pub open spec fn wf(self) -> bool {
        self.reader.wf() && url_norm(self.origin@) == Some(self.origin@) && trimmed(self.origin@)
            == self.origin@ && self.origin@.len() > 0
    }

    /// Builds the machine over a byte buffer; fails exactly where the origin
    /// does not parse as an absolute URL.
    pub fn new(bytes: Vec<u8>, origin: String) -> (r: Result<UriExtractorFSM, AppError>)
        ensures
            match url_norm(origin@) {
                Some(o) => r matches Ok(f) && f.wf() && f.reader.bytes == bytes && f.reader.pos
                    == 0 && f.uris@.len() == 0 && f.origin@ == o,
                None => r == Err::<UriExtractorFSM, AppError>(AppError::UrlParseError),
            },
    {
        match crate::web::url_parse_norm(origin.as_str()) {
            Some(o) => Ok(UriExtractorFSM {
                reader: StreamReader::new(bytes),
                uris: Vec::new(),
                origin: o,
            }),
            None => Err(AppError::UrlParseError),
        }
    }

    /// The absolute byte offset of the cursor.
    pub fn position(&self) -> (r: usize)
        ensures
            r == self.reader.pos,
    {
        self.reader.position()
    }

    /// Moves the cursor to an absolute byte offset.
    pub fn set_position(&mut self, pos: usize)
        requires
            old(self).wf(),
            pos <= old(self).reader.bytes@.len(),
        ensures
            final(self).wf(),
            final(self).reader.bytes == old(self).reader.bytes,
            final(self).reader.pos == pos,
            final(self).uris == old(self).uris,
            final(self).origin == old(self).origin,
    {
        self.reader.set_position(pos);
    }

    /// Decodes the next character; see [`StreamReader::read_char`].
    pub fn read_char(&mut self) -> (r: Result<char, AppError>)
        requires
            old(self).wf(),
        ensures
            final(self).wf(),
            final(self).reader.bytes == old(self).reader.bytes,
            final(self).uris == old(self).uris,
            final(self).origin == old(self).origin,
            match spec_read_char(old(self).reader.bytes@, old(self).reader.pos as int) {
                CharStep::Okc(c, p) => r == Ok::<char, AppError>(c) && final(self).reader.pos == p,
                CharStep::Eof => r == Err::<char, AppError>(AppError::UnexpectedEof)
                    && final(self).reader.pos == old(self).reader.pos,
                CharStep::Invalid => r == Err::<char, AppError>(AppError::InvalidUtf8)
                    && final(self).reader.pos == old(self).reader.pos,
            },
    {
        self.reader.read_char()
    }

    /// Reads exactly `n` characters; see [`StreamReader::read_chars`].
    pub fn read_exact_chars(&mut self, n: usize) -> (r: Result<Vec<char>, AppError>)
        requires
            old(self).wf(),
        ensures
            final(self).wf(),
            final(self).reader.bytes == old(self).reader.bytes,
            final(self).uris == old(self).uris,
            final(self).origin == old(self).origin,
            match crate::reader::spec_read_chars(
                old(self).reader.bytes@,
                old(self).reader.pos as int,
                n as nat,
            ) {
                crate::reader::ChunkStep::Chunk(run, q) => r matches Ok(v) && v@ == run
                    && final(self).reader.pos == q,
                crate::reader::ChunkStep::CEof(q) => r == Err::<Vec<char>, AppError>(
                    AppError::UnexpectedEof,
                ) && final(self).reader.pos == q,
                crate::reader::ChunkStep::CInvalid(q) => r == Err::<Vec<char>, AppError>(
                    AppError::InvalidUtf8,
                ) && final(self).reader.pos == q,
            },
    {
        self.reader.read_chars(n)
    }

    /// Matches a fixed pattern; see [`StreamReader::match_next`].
    pub fn match_next(&mut self, pattern: &[char], rewind: bool) -> (r: Result<bool, AppError>)
        requires
            old(self).wf(),
        ensures
            final(self).wf(),
            final(self).reader.bytes == old(self).reader.bytes,
            final(self).uris == old(self).uris,
            final(self).origin == old(self).origin,
            match spec_match_next(old(self).reader.bytes@, old(self).reader.pos as int, pattern@) {
                MatchStep::Matched(p) => r == Ok::<bool, AppError>(true) && final(self).reader.pos
                    == p,
                MatchStep::Mismatch(p) => r == Ok::<bool, AppError>(false)
                    && final(self).reader.pos == (if rewind {
                    old(self).reader.pos as int
                } else {
                    p
                }),
                MatchStep::MEof(p) => r == Err::<bool, AppError>(AppError::UnexpectedEof)
                    && final(self).reader.pos == p,
                MatchStep::MInvalid(p) => r == Err::<bool, AppError>(AppError::InvalidUtf8)
                    && final(self).reader.pos == p,
            },
    {
        self.reader.match_next(pattern, rewind)
    }

    /// One-character membership test; see [`StreamReader::match_next_or`].
    pub fn match_next_or(&mut self, chars: &[char], rewind: bool) -> (r: Result<
        Option<char>,
        AppError,
    >)
        requires
            old(self).wf(),
        ensures
            final(self).wf(),
            final(self).reader.bytes == old(self).reader.bytes,
            final(self).uris == old(self).uris,
            final(self).origin == old(self).origin,
            match spec_read_char(old(self).reader.bytes@, old(self).reader.pos as int) {
                CharStep::Okc(c, p) => if chars@.contains(c) {
                    r == Ok::<Option<char>, AppError>(Some(c)) && final(self).reader.pos == p
                } else {
                    r == Ok::<Option<char>, AppError>(None) && final(self).reader.pos == (
                    if rewind {
                        old(self).reader.pos as int
                    } else {
                        p
                    })
                },
                CharStep::Eof => r == Err::<Option<char>, AppError>(AppError::UnexpectedEof)
                    && final(self).reader.pos == old(self).reader.pos,
                CharStep::Invalid => r == Err::<Option<char>, AppError>(AppError::InvalidUtf8)
                    && final(self).reader.pos == old(self).reader.pos,
            },
    {
        self.reader.match_next_or(chars, rewind)
    }

    /// Greedy run of characters from a set; see
    /// [`StreamReader::get_until_mismatch`].
    pub fn get_until_mismatch(&mut self, legal: &[char]) -> (r: Result<Vec<char>, AppError>)
        requires
            old(self).wf(),
        ensures
            final(self).wf(),
            final(self).reader.bytes == old(self).reader.bytes,
            final(self).uris == old(self).uris,
            final(self).origin == old(self).origin,
            match spec_until(
                old(self).reader.bytes@,
                old(self).reader.pos as int,
                crate::reader::in_seq_pred(legal@),
                true,
            ) {
                UntilStep::Done(run, q) => r matches Ok(v) && v@ == run && final(self).reader.pos
                    == q,
                UntilStep::UInvalid(q) => r == Err::<Vec<char>, AppError>(AppError::InvalidUtf8)
                    && final(self).reader.pos == q,
            },
    {
        self.reader.get_until_mismatch(legal)
    }

    /// Scan for a pattern before a terminator; see
    /// [`StreamReader::read_until_match`].
    pub fn read_until_match(&mut self, pattern: &[char], term_char: char, rewind: bool) -> (r:
        Result<bool, AppError>)
        requires
            old(self).wf(),
            pattern@.len() > 0,
        ensures
            final(self).wf(),
            final(self).reader.bytes == old(self).reader.bytes,
            final(self).uris == old(self).uris,
            final(self).origin == old(self).origin,
            match spec_search(
                old(self).reader.bytes@,
                old(self).reader.pos as int,
                pattern@,
                term_char,
                0,
            ) {
                SearchStep::Found(p) => r == Ok::<bool, AppError>(true) && final(self).reader.pos
                    == p,
                SearchStep::NotFound(p) => r == Ok::<bool, AppError>(false)
                    && final(self).reader.pos == (if rewind {
                    old(self).reader.pos as int
                } else {
                    p
                }),
                SearchStep::SEof(p) => r == Err::<bool, AppError>(AppError::UnexpectedEof)
                    && final(self).reader.pos == p,
                SearchStep::SInvalid(p) => r == Err::<bool, AppError>(AppError::InvalidUtf8)
                    && final(self).reader.pos == p,
            },
    {
        self.reader.read_until_match(pattern, term_char, rewind)
    }

    fn scan_trigger(&mut self) -> (r: Result<Option<char>, AppError>)
        requires
            old(self).wf(),
        ensures
            final(self).wf(),
            final(self).reader.bytes == old(self).reader.bytes,
            final(self).uris == old(self).uris,
            final(self).origin == old(self).origin,
            match spec_scan(old(self).reader.bytes@, old(self).reader.pos as int) {
                ScanStep::Trigger(c, p) => r == Ok::<Option<char>, AppError>(Some(c))
                    && final(self).reader.pos == p,
                ScanStep::ScEof => r == Ok::<Option<char>, AppError>(None),
                ScanStep::ScInvalid => r == Err::<Option<char>, AppError>(AppError::InvalidUtf8),
            },
    {
        loop
            invariant
                self.wf(),
                self.reader.bytes == old(self).reader.bytes,
                self.uris == old(self).uris,
                self.origin == old(self).origin,
                spec_scan(old(self).reader.bytes@, old(self).reader.pos as int) == spec_scan(
                    self.reader.bytes@,
                    self.reader.pos as int,
                ),
            decreases self.reader.bytes@.len() - self.reader.pos,
        {
            let ghost pre = self.reader.pos as int;
            proof {
                lemma_read_char_advances(self.reader.bytes@, pre);
            }
            match self.reader.read_char() {
                Err(AppError::UnexpectedEof) => {
                    return Ok(None);
                },
                Err(e) => {
                    return Err(e);
                },
                Ok(c) => {
                    if c == 'h' || c == '<' {
                        return Ok(Some(c));
                    }
                },
            }
        }
    }

    fn link_tail(&mut self, secure: bool) -> (r: Result<Option<String>, AppError>)
        requires
            old(self).wf(),
        ensures
            final(self).wf(),
            final(self).reader.bytes == old(self).reader.bytes,
            final(self).uris == old(self).uris,
            final(self).origin == old(self).origin,
            match spec_link_tail(old(self).reader.bytes@, old(self).reader.pos as int, secure) {
                EmitStep::Emit(u, p) => r matches Ok(s) && s matches Some(s) && s@ == u
                    && final(self).reader.pos == p,
                EmitStep::Skip(p) => r == Ok::<Option<String>, AppError>(None)
                    && final(self).reader.pos == p,
                EmitStep::EEof => r == Err::<Option<String>, AppError>(AppError::UnexpectedEof),
                EmitStep::EInvalid => r == Err::<Option<String>, AppError>(AppError::InvalidUtf8),
                EmitStep::ENormFail => false,
            },
    {
        let slashes = vec!['/', '/'];
        proof {
            assert(slashes@ =~= seq!['/', '/']);
        }
        match self.reader.match_next(slashes.as_slice(), true) {
            Err(e) => {
                return Err(e);
            },
            Ok(false) => {
                return Ok(None);
            },
            Ok(true) => {},
        }
        let run = match read_url_run(&mut self.reader) {
            Ok(v) => v,
            Err(e) => {
                return Err(e);
            },
        };
        if run.len() == 0 {
            return Ok(None);
        }
        let mut uri = if secure {
            String::from_str("https://")
        } else {
            String::from_str("http://")
        };
        let tail = chars_to_string(&run);
        uri.append(tail.as_str());
        proof {
            reveal_strlit("https://");
            reveal_strlit("http://");
            assert(uri@ =~= link_prefix(secure) + run@);
        }
        Ok(Some(uri))
    }

    fn read_link(&mut self) -> (r: Result<Option<String>, AppError>)
        requires
            old(self).wf(),
        ensures
            final(self).wf(),
            final(self).reader.bytes == old(self).reader.bytes,
            final(self).uris == old(self).uris,
            final(self).origin == old(self).origin,
            match spec_read_link(old(self).reader.bytes@, old(self).reader.pos as int) {
                EmitStep::Emit(u, p) => r matches Ok(s) && s matches Some(s) && s@ == u
                    && final(self).reader.pos == p,
                EmitStep::Skip(p) => r == Ok::<Option<String>, AppError>(None)
                    && final(self).reader.pos == p,
                EmitStep::EEof => r == Err::<Option<String>, AppError>(AppError::UnexpectedEof),
                EmitStep::EInvalid => r == Err::<Option<String>, AppError>(AppError::InvalidUtf8),
                EmitStep::ENormFail => false,
            },
    {
        let ttp = vec!['t', 't', 'p'];
        proof {
            assert(ttp@ =~= seq!['t', 't', 'p']);
        }
        match self.reader.match_next(ttp.as_slice(), true) {
            Err(e) => {
                return Err(e);
            },
            Ok(false) => {
                return Ok(None);
            },
            Ok(true) => {},
        }
        let follows = vec!['s', ':'];
        match self.reader.match_next_or(follows.as_slice(), true) {
            Err(e) => Err(e),
            Ok(None) => Ok(None),
            Ok(Some(c)) => {
                proof {
                    assert(follows@.contains(c));
                    assert(follows@[0] == 's' && follows@[1] == ':');
                    assert(c == 's' || c == ':');
                }
                if c == 's' {
                    let colon = vec![':'];
                    proof {
                        assert(colon@ =~= seq![':']);
                    }
                    match self.reader.match_next(colon.as_slice(), true) {
                        Err(e) => Err(e),
                        Ok(false) => Ok(None),
                        Ok(true) => self.link_tail(true),
                    }
                } else {
                    self.link_tail(false)
                }
            },
        }
    }

    fn read_html_tag(&mut self) -> (r: Result<Option<String>, AppError>)
        requires
            old(self).wf(),
        ensures
            final(self).wf(),
            final(self).reader.bytes == old(self).reader.bytes,
            final(self).uris == old(self).uris,
            final(self).origin == old(self).origin,
            match spec_read_tag(
                old(self).reader.bytes@,
                old(self).reader.pos as int,
                old(self).origin@,
            ) {
                EmitStep::Emit(u, p) => r matches Ok(s) && s matches Some(s) && s@ == u
                    && final(self).reader.pos == p,
                EmitStep::Skip(p) => r == Ok::<Option<String>, AppError>(None)
                    && final(self).reader.pos == p,
                EmitStep::EEof => r == Err::<Option<String>, AppError>(AppError::UnexpectedEof),
                EmitStep::EInvalid => r == Err::<Option<String>, AppError>(AppError::InvalidUtf8),
                EmitStep::ENormFail => r == Err::<Option<String>, AppError>(
                    AppError::UrlParseError,
                ),
            },
    {
        let anchor = vec!['a'];
        proof {
            assert(anchor@ =~= seq!['a']);
        }
        match self.reader.match_next(anchor.as_slice(), true) {
            Err(e) => {
                return Err(e);
            },
            Ok(false) => {
                return Ok(None);
            },
            Ok(true) => {},
        }
        let href = vec!['h', 'r', 'e', 'f', '='];
        proof {
            assert(href@ =~= seq!['h', 'r', 'e', 'f', '=']);
        }
        match self.reader.read_until_match(href.as_slice(), '>', true) {
            Err(e) => {
                return Err(e);
            },
            Ok(false) => {
                return Ok(None);
            },
            Ok(true) => {},
        }
        let quotes = vec!['"', '\''];
        match self.reader.match_next_or(quotes.as_slice(), true) {
            Err(e) => {
                return Err(e);
            },
            Ok(None) => {
                return Ok(None);
            },
            Ok(Some(_)) => {
                proof {
                    assert(quotes@[0] == '"' && quotes@[1] == '\'');
                }
            },
        }
        let run = match read_url_run(&mut self.reader) {
            Ok(v) => v,
            Err(e) => {
                return Err(e);
            },
        };
        if run.len() == 0 {
            return Ok(None);
        }
        let href_text = chars_to_string(&run);
        match normalize_url(self.origin.as_str(), href_text.as_str()) {
            Ok(u) => Ok(Some(u)),
            Err(e) => Err(e),
        }
    }

    /// Drives the machine to the end of the input and returns the discovered
    /// URIs, sorted lexicographically with duplicates removed. Malformed
    /// UTF-8 and failed href resolution are the only errors; the end of the
    /// input, wherever it strikes, ends the run normally.
    pub fn perform(self) -> (r: Result<Vec<String>, AppError>)
        requires
            self.wf(),
        ensures
            match spec_fsm(self.reader.bytes@, self.reader.pos as int, self.origin@) {
                Ok(emits) => r matches Ok(v) && strict_sorted(v.deep_view()) && (forall|
                    x: Seq<char>,
                |
                    v.deep_view().contains(x) <==> (self.uris.deep_view() + emits).contains(x)),
                Err(e) => r == Err::<Vec<String>, AppError>(e),
            },
    {
        let ghost g_bytes = self.reader.bytes@;
        let ghost g_origin = self.origin@;
        let ghost g_run = spec_fsm(self.reader.bytes@, self.reader.pos as int, self.origin@);
        let ghost base = self.uris.deep_view();
        let mut fsm = self;
        let ghost mut emitted: Seq<Seq<char>> = Seq::empty();
        proof {
            match spec_fsm(g_bytes, fsm.reader.pos as int, g_origin) {
                Ok(rest) => {
                    assert(emitted + rest =~= rest);
                },
                Err(_) => {},
            }
        }
        let mut done = false;
        #[verifier::loop_isolation(false)]
        while !done
            invariant
                fsm.wf(),
                fsm.reader.bytes@ == g_bytes,
                fsm.origin@ == g_origin,
                fsm.uris.deep_view() == base + emitted,
                !done ==> match spec_fsm(g_bytes, fsm.reader.pos as int, g_origin) {
                    Ok(rest) => g_run == Ok::<Seq<Seq<char>>, AppError>(emitted + rest),
                    Err(e) => g_run == Err::<Seq<Seq<char>>, AppError>(e),
                },
                done ==> g_run == Ok::<Seq<Seq<char>>, AppError>(emitted),
            decreases (if done { 0int } else { 1int }), g_bytes.len() - fsm.reader.pos,
        {
            let ghost pre_pos = fsm.reader.pos as int;
            proof {
                lemma_scan_bounds(g_bytes, pre_pos);
            }
            let trigger = match fsm.scan_trigger() {
                Err(e) => {
                    proof {
                        assert(spec_scan(g_bytes, pre_pos) == ScanStep::ScInvalid);
                        assert(spec_fsm(g_bytes, pre_pos, g_origin) == Err::<
                            Seq<Seq<char>>,
                            AppError,
                        >(AppError::InvalidUtf8));
                    }
                    return Err(e);
                },
                Ok(None) => {
                    proof {
                        assert(spec_scan(g_bytes, pre_pos) == ScanStep::ScEof);
                        assert(spec_fsm(g_bytes, pre_pos, g_origin) == Ok::<
                            Seq<Seq<char>>,
                            AppError,
                        >(Seq::empty()));
                        assert(emitted + Seq::<Seq<char>>::empty() =~= emitted);
                    }
                    done = true;
                    continue;
                },
                Ok(Some(c)) => c,
            };
            let ghost p_trig = fsm.reader.pos as int;
            proof {
                if trigger == 'h' {
                    lemma_read_link_bounds(g_bytes, p_trig);
                } else {
                    lemma_read_tag_bounds(g_bytes, p_trig, g_origin);
                }
            }
            let step = if trigger == 'h' {
                fsm.read_link()
            } else {
                fsm.read_html_tag()
            };
            match step {
                Err(AppError::UnexpectedEof) => {
                    proof {
                        let step_s = if trigger == 'h' {
                            spec_read_link(g_bytes, p_trig)
                        } else {
                            spec_read_tag(g_bytes, p_trig, g_origin)
                        };
                        assert(step_s == EmitStep::EEof);
                        assert(spec_fsm(g_bytes, pre_pos, g_origin) == Ok::<
                            Seq<Seq<char>>,
                            AppError,
                        >(Seq::empty()));
                        assert(emitted + Seq::<Seq<char>>::empty() =~= emitted);
                    }
                    done = true;
                    continue;
                },
                Err(e) => {
                    proof {
                        let step_s = if trigger == 'h' {
                            spec_read_link(g_bytes, p_trig)
                        } else {
                            spec_read_tag(g_bytes, p_trig, g_origin)
                        };
                        assert(step_s == EmitStep::EInvalid || step_s == EmitStep::ENormFail);
                        assert(spec_fsm(g_bytes, pre_pos, g_origin) == Err::<
                            Seq<Seq<char>>,
                            AppError,
                        >(e));
                    }
                    return Err(e);
                },
                Ok(None) => {},
                Ok(Some(uri)) => {
                    let ghost uv = uri@;
                    let ghost uris_pre = fsm.uris@;
                    let ghost dv_pre = fsm.uris.deep_view();
                    fsm.uris.push(uri);
                    proof {
                        let ghost em_pre = emitted;
                        emitted = emitted.push(uv);
                        assert(fsm.uris@ == uris_pre.push(uri));
                        assert(forall|i: int| 0 <= i < uris_pre.len() ==> fsm.uris@[i]
                            == uris_pre[i]);
                        assert(forall|i: int| 0 <= i < uris_pre.len()
                            ==> #[trigger] fsm.uris.deep_view()[i] == dv_pre[i]);
                        assert(fsm.uris.deep_view()[uris_pre.len() as int] == uv);
                        assert(fsm.uris.deep_view() =~= base + emitted);
                        match spec_fsm(g_bytes, fsm.reader.pos as int, g_origin) {
                            Ok(rest) => {
                                assert(em_pre + (seq![uv] + rest) =~= emitted + rest);
                            },
                            Err(_) => {},
                        }
                    }
                },
            }
        }
        let out = sort_dedup_strings(fsm.uris);
        Ok(out)
    }
}

fn read_url_run(reader: &mut StreamReader) -> (r: Result<Vec<char>, AppError>)
    requires
        old(reader).wf(),
    ensures
        final(reader).wf(),
        final(reader).bytes == old(reader).bytes,
        match spec_until(old(reader).bytes@, old(reader).pos as int, legal_url_pred(), true) {
            UntilStep::Done(run, q) => r matches Ok(v) && v@ == run && final(reader).pos == q,
            UntilStep::UInvalid(q) => r == Err::<Vec<char>, AppError>(AppError::InvalidUtf8)
                && final(reader).pos == q,
        },
{
    let mut acc: Vec<char> = Vec::new();
    proof {
        match spec_until(reader.bytes@, reader.pos as int, legal_url_pred(), true) {
            UntilStep::Done(rest, _) => {
                assert(acc@ + rest =~= rest);
            },
            UntilStep::UInvalid(_) => {},
        }
    }
    loop
        invariant
            reader.wf(),
            reader.bytes == old(reader).bytes,
            match spec_until(reader.bytes@, reader.pos as int, legal_url_pred(), true) {
                UntilStep::Done(rest, q) => spec_until(
                    old(reader).bytes@,
                    old(reader).pos as int,
                    legal_url_pred(),
                    true,
                ) == UntilStep::Done(acc@ + rest, q),
                UntilStep::UInvalid(q) => spec_until(
                    old(reader).bytes@,
                    old(reader).pos as int,
                    legal_url_pred(),
                    true,
                ) == UntilStep::UInvalid(q),
            },
        decreases reader.bytes@.len() - reader.pos,
    {
        let ghost pre_pos = reader.pos as int;
        proof {
            lemma_read_char_advances(reader.bytes@, pre_pos);
        }
        let next = match reader.read_char() {
            Ok(c) => c,
            Err(AppError::UnexpectedEof) => {
                proof {
                    assert(acc@ + Seq::<char>::empty() =~= acc@);
                }
                return Ok(acc);
            },
            Err(e) => {
                return Err(e);
            },
        };
        if legal_url_char(next) {
            let ghost acc_pre = acc@;
            acc.push(next);
            proof {
                match spec_until(reader.bytes@, reader.pos as int, legal_url_pred(), true) {
                    UntilStep::Done(rest, q) => {
                        assert(spec_until(reader.bytes@, pre_pos, legal_url_pred(), true)
                            == UntilStep::Done(seq![next] + rest, q));
                        assert(acc@ + rest =~= acc_pre + (seq![next] + rest));
                    },
                    UntilStep::UInvalid(_) => {},
                }
            }
        } else {
            proof {
                assert(acc@ + Seq::<char>::empty() =~= acc@);
            }
            return Ok(acc);
        }
    }
}

/// Runs the extractor over a byte buffer: parses the origin, scans the whole
/// input, and returns the discovered URIs sorted and deduplicated.
pub fn extract_uris(bytes: Vec<u8>, origin: &str) -> (r: Result<Vec<String>, AppError>)
    ensures
        match url_norm(origin@) {
            None => r == Err::<Vec<String>, AppError>(AppError::UrlParseError),
            Some(o) => match spec_fsm(bytes@, 0, o) {
                Ok(emits) => r matches Ok(v) && strict_sorted(v.deep_view()) && (forall|
                    x: Seq<char>,
                |
                    v.deep_view().contains(x) <==> emits.contains(x)),
                Err(e) => r == Err::<Vec<String>, AppError>(e),
            },
        },
{
    let fsm = match UriExtractorFSM::new(bytes, String::from_str(origin)) {
        Ok(f) => f,
        Err(e) => {
            return Err(e);
        },
    };
    let ghost o = url_norm(origin@).unwrap();
    let ghost base = fsm.uris.deep_view();
    proof {
        assert(base =~= Seq::<Seq<char>>::empty());
        match spec_fsm(fsm.reader.bytes@, 0, o) {
            Ok(emits) => {
                assert(base + emits =~= emits);
            },
            Err(_) => {},
        }
    }
    fsm.perform()
}

} // verus!
