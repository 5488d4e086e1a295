//! How a served specification is rendered, chosen from the request's
//! `Accept` header.
use vstd::prelude::*;

use crate::method::str_equal;

verus! {

/// A specification rendered as YAML.
pub struct Yaml<T>(pub T);

/// The formats a specification is served in.
#[derive(Clone, Copy, Debug, PartialEq, Eq, Structural)]
pub enum SpecFormat {
    Json,
    Yaml,
}

/// The format asked for by an `Accept` header that names it exactly:
/// `yaml` for YAML; `json`, `*/*`, an empty header or none for JSON; `None`
/// (a bad request) for anything else.
pub open spec fn spec_exact_format(accept: Option<Seq<char>>) -> Option<SpecFormat> {
    match accept {
        None => Some(SpecFormat::Json),
        Some(h) => if h == seq!['y', 'a', 'm', 'l'] {
            Some(SpecFormat::Yaml)
        } else if h == seq!['j', 's', 'o', 'n'] || h == seq!['*', '/', '*'] || h.len() == 0 {
            Some(SpecFormat::Json)
        } else {
            None
        },
    }
}

/// Whether `c` is the lower case letter `p` or its upper case form.
pub open spec fn ascii_ci_eq(c: char, p: char) -> bool {
    c == p || ('a' <= p && p <= 'z' && (c as int) == (p as int) - 32)
}

/// Whether `pat` (lower case) occurs in `s` at `i`, ignoring ASCII case.
pub open spec fn occurs_at(s: Seq<char>, pat: Seq<char>, i: int) -> bool {
    0 <= i && i + pat.len() <= s.len() && forall|k: int| 0 <= k < pat.len() ==> ascii_ci_eq(#[trigger] s[i + k], pat[k])
}

/// Whether `pat` (lower case) occurs in `s`, ignoring ASCII case.
pub open spec fn contains_ci(s: Seq<char>, pat: Seq<char>) -> bool {
    exists|i: int| occurs_at(s, pat, i)
}

/// The format asked for by an `Accept` header: YAML where it mentions
/// `yaml`, else JSON where it mentions `json` or `*/*` (case aside); JSON
/// without a header; `None` (a bad request) for anything else.
pub open spec fn spec_format(accept: Option<Seq<char>>) -> Option<SpecFormat> {
    match accept {
        None => Some(SpecFormat::Json),
        Some(h) => if contains_ci(h, seq!['y', 'a', 'm', 'l']) {
            Some(SpecFormat::Yaml)
        } else if contains_ci(h, seq!['j', 's', 'o', 'n']) || contains_ci(h, seq!['*', '/', '*']) {
            Some(SpecFormat::Json)
        } else {
            None
        },
    }
}

fn ci_eq(c: char, p: char) -> (r: bool)
    ensures
        r == ascii_ci_eq(c, p),
{
    c == p || ('a' <= p && p <= 'z' && (c as u32) + 32 == (p as u32))
}

/// Whether `pat` (lower case) occurs in `s`, ignoring ASCII case.
fn find_ci(s: &str, pat: &str) -> (r: bool)
    ensures
        r == contains_ci(s@, pat@),
{
    let n = s.unicode_len();
    let m = pat.unicode_len();
    if m > n {
        return false;
    }
    let mut i: usize = 0;
    while i <= n - m
        invariant
            n == s@.len(),
            m == pat@.len(),
            m <= n,
            i <= n - m + 1,
            forall|j: int| 0 <= j < i ==> !occurs_at(s@, pat@, j),
        decreases n - i,
    {
        let mut k: usize = 0;
        while k < m && ci_eq(s.get_char(i + k), pat.get_char(k))
            invariant
                n == s@.len(),
                m == pat@.len(),
                i + m <= n,
                k <= m,
                forall|t: int| 0 <= t < k ==> ascii_ci_eq(#[trigger] s@[i + t], pat@[t]),
            decreases m - k,
        {
            k = k + 1;
        }
        if k == m {
            assert(occurs_at(s@, pat@, i as int));
            return true;
        }
        assert(!ascii_ci_eq(s@[i + k], pat@[k as int]));
        i = i + 1;
    }
    proof {
        assert forall|j: int| !occurs_at(s@, pat@, j) by {
            if j >= i {
                assert(j + m > n);
            }
        }
    }
    false
}

/// The format to serve a specification in, given the request's `Accept` header.
pub fn negotiate_spec_format(accept: Option<&str>) -> (r: Option<SpecFormat>)
    ensures
        accept is None ==> r == spec_format(None),
        accept matches Some(h) ==> r == spec_format(Some(h@)),
{
    proof {
        reveal_strlit("yaml");
        reveal_strlit("json");
        reveal_strlit("*/*");
        assert("yaml"@ =~= seq!['y', 'a', 'm', 'l']);
        assert("json"@ =~= seq!['j', 's', 'o', 'n']);
        assert("*/*"@ =~= seq!['*', '/', '*']);
    }
    match accept {
        None => Some(SpecFormat::Json),
        Some(h) => {
            if find_ci(h, "yaml") {
                Some(SpecFormat::Yaml)
            } else if find_ci(h, "json") || find_ci(h, "*/*") {
                Some(SpecFormat::Json)
            } else {
                None
            }
        },
    }
}

/// The format to serve a specification in, given an `Accept` header that
/// must name the format exactly.
pub fn exact_spec_format(accept: Option<&str>) -> (r: Option<SpecFormat>)
    ensures
        accept is None ==> r == spec_exact_format(None),
        accept matches Some(h) ==> r == spec_exact_format(Some(h@)),
{
    proof {
        reveal_strlit("yaml");
        reveal_strlit("json");
        reveal_strlit("*/*");
        assert("yaml"@ =~= seq!['y', 'a', 'm', 'l']);
        assert("json"@ =~= seq!['j', 's', 'o', 'n']);
        assert("*/*"@ =~= seq!['*', '/', '*']);
    }
    match accept {
        None => Some(SpecFormat::Json),
        Some(h) => {
            if str_equal(h, "yaml") {
                Some(SpecFormat::Yaml)
            } else if str_equal(h, "json") || str_equal(h, "*/*") || h.unicode_len() == 0 {
                Some(SpecFormat::Json)
            } else {
                None
            }
        },
    }
}

} // verus!
