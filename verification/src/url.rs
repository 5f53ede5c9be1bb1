//! Host extraction and origin-domain checks.
//!
//! The runner must not follow links that leave the origin's domain; the
//! check compares the host part of the current URL with the origin's. A
//! host is what stands between the scheme separator and the first `/`,
//! `?` or `#`, less any user information before `@` and any port after
//! `:`.

use vstd::prelude::*;
use vstd::string::StrSliceExecFns;

use crate::strings::push_char;

verus! {

/// The first position at or after `from` where `://` occurs.
pub open spec fn spec_find_sep(s: Seq<char>, from: int) -> Option<int>
    decreases s.len() - from,
{
    if from < 0 || from + 3 > s.len() {
        None
    } else if s[from] == ':' && s[from + 1] == '/' && s[from + 2] == '/' {
        Some(from)
    } else {
        spec_find_sep(s, from + 1)
    }
}

pub open spec fn spec_is_authority_end(c: char) -> bool {
    c == '/' || c == '?' || c == '#'
}

/// The first position at or after `from` that ends the authority part.
pub open spec fn spec_find_authority_end(s: Seq<char>, from: int) -> int
    decreases s.len() - from,
{
    if from < 0 || from >= s.len() {
        s.len() as int
    } else if spec_is_authority_end(s[from]) {
        from
    } else {
        spec_find_authority_end(s, from + 1)
    }
}

/// The first position of `c` in `s`, or the length.
pub open spec fn spec_find_char(s: Seq<char>, from: int, c: char) -> int
    decreases s.len() - from,
{
    if from < 0 || from >= s.len() {
        s.len() as int
    } else if s[from] == c {
        from
    } else {
        spec_find_char(s, from + 1, c)
    }
}

/// The host part of a URL: between `://` and the first `/`, `?` or `#`,
/// after any `@` and before any `:`.
pub open spec fn spec_host(s: Seq<char>) -> Option<Seq<char>> {
    match spec_find_sep(s, 0) {
        None => None,
        Some(sep) => {
            let start = sep + 3;
            let end = spec_find_authority_end(s, start);
            let authority = s.subrange(start, end);
            let at = spec_find_char(authority, 0, '@');
            let after_user = if at == authority.len() as int {
                authority
            } else {
                authority.skip(at + 1)
            };
            let colon = spec_find_char(after_user, 0, ':');
            Some(after_user.take(colon))
        },
    }
}

fn substring_copy(s: &str, from: usize, to: usize) -> (r: String)
    requires
        from <= to <= s@.len(),
    ensures
        r@ == s@.subrange(from as int, to as int),
{
    let mut out = String::new();
    let mut i: usize = from;
    while i < to
        invariant
            from <= i <= to <= s@.len(),
            out@ == s@.subrange(from as int, i as int),
        decreases to - i,
    {
        push_char(&mut out, s.get_char(i));
        proof {
            assert(s@.subrange(from as int, i as int + 1) =~= s@.subrange(from as int, i as int)
                .push(s@[i as int]));
        }
        i = i + 1;
    }
    proof {
        assert(Seq::<char>::empty() =~= s@.subrange(from as int, from as int));
    }
    out
}

fn find_sep(s: &str) -> (r: Option<usize>)
    ensures
        match r {
            Some(i) => spec_find_sep(s@, 0) == Some(i as int),
            None => spec_find_sep(s@, 0) is None,
        },
{
    let n = s.unicode_len();
    if n < 3 {
        return None;
    }
    let mut i: usize = 0;
    while i <= n - 3
        invariant
            n == s@.len(),
            n >= 3,
            i <= n - 2,
            spec_find_sep(s@, 0) == spec_find_sep(s@, i as int),
        decreases n - i,
    {
        if s.get_char(i) == ':' && s.get_char(i + 1) == '/' && s.get_char(i + 2) == '/' {
            return Some(i);
        }
        i = i + 1;
    }
    None
}

fn find_authority_end(s: &str, from: usize) -> (r: usize)
    requires
        from <= s@.len(),
    ensures
        r == spec_find_authority_end(s@, from as int),
        from <= r <= s@.len(),
{
    let n = s.unicode_len();
    let mut i: usize = from;
    while i < n
        invariant
            n == s@.len(),
            from <= i <= n,
            spec_find_authority_end(s@, from as int) == spec_find_authority_end(s@, i as int),
        decreases n - i,
    {
        let c = s.get_char(i);
        if c == '/' || c == '?' || c == '#' {
            return i;
        }
        i = i + 1;
    }
    i
}

fn find_char(s: &str, c: char) -> (r: usize)
    ensures
        r == spec_find_char(s@, 0, c),
        r <= s@.len(),
{
    let n = s.unicode_len();
    let mut i: usize = 0;
    while i < n
        invariant
            n == s@.len(),
            i <= n,
            spec_find_char(s@, 0, c) == spec_find_char(s@, i as int, c),
        decreases n - i,
    {
        if s.get_char(i) == c {
            return i;
        }
        i = i + 1;
    }
    i
}

/// The host of a URL, or `None` when the text has no scheme separator.
pub fn host_of(url: &str) -> (r: Option<String>)
    ensures
        match r {
            Some(h) => spec_host(url@) == Some(h@),
            None => spec_host(url@) is None,
        },
{
    let sep = match find_sep(url) {
        Some(i) => i,
        None => {
            return None;
        },
    };
    proof {
        lemma_find_sep_bounds(url@, 0);
    }
    let total = url.unicode_len();
    assert(sep + 3 <= total);
    let start = sep + 3;
    let end = find_authority_end(url, start);
    let authority = substring_copy(url, start, end);
    let at = find_char(authority.as_str(), '@');
    let after_user = if at == authority.as_str().unicode_len() {
        authority
    } else {
        let n = authority.as_str().unicode_len();
        assert(at < n);
        substring_copy(authority.as_str(), at + 1, n)
    };
    proof {
        let auth_view = url@.subrange(start as int, end as int);
        let at_spec = spec_find_char(auth_view, 0, '@');
        if at_spec != auth_view.len() as int {
            assert(after_user@ =~= auth_view.skip(at_spec + 1));
        }
    }
    let colon = find_char(after_user.as_str(), ':');
    let host = substring_copy(after_user.as_str(), 0, colon);
    proof {
        assert(host@ =~= after_user@.take(spec_find_char(after_user@, 0, ':')));
    }
    Some(host)
}

proof fn lemma_find_sep_bounds(s: Seq<char>, from: int)
    requires
        from >= 0,
    ensures
        match spec_find_sep(s, from) {
            Some(i) => from <= i && i + 3 <= s.len(),
            None => true,
        },
    decreases s.len() - from,
{
    if from + 3 <= s.len() {
        if !(s[from] == ':' && s[from + 1] == '/' && s[from + 2] == '/') {
            lemma_find_sep_bounds(s, from + 1);
        }
    }
}

/// Whether a URL stays within the origin's domain: both hosts exist and
/// are the same.
pub fn is_within_domain(url: &str, origin: &str) -> (r: bool)
    ensures
        r == (spec_host(url@) is Some && spec_host(url@) == spec_host(origin@)),
{
    let host_url = host_of(url);
    let host_origin = host_of(origin);
    match (host_url, host_origin) {
        (Some(a), Some(b)) => {
            let eq = crate::strings::str_starts_with(a.as_str(), b.as_str())
                && crate::strings::str_starts_with(b.as_str(), a.as_str());
            proof {
                if eq {
                    assert(a@.take(b@.len() as int) == b@);
                    assert(b@.take(a@.len() as int) == a@);
                    assert(a@ =~= b@);
                } else {
                    if a@ == b@ {
                        assert(a@.take(b@.len() as int) =~= b@);
                        assert(b@.take(a@.len() as int) =~= a@);
                    }
                }
            }
            eq
        },
        _ => false,
    }
}

} // verus!
