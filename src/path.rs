//! Conversion of router paths to OpenAPI path templates.
//!
//! A router writes a path parameter as a segment that starts with `:`
//! (`/users/:id`); OpenAPI writes it in braces (`/users/{id}`).
use vstd::prelude::*;

verus! {

/// `s` without its leading `:` characters.
pub open spec fn trim_start_colons(s: Seq<char>) -> Seq<char>
    decreases s.len(),
{
    if s.len() > 0 && s[0] == ':' {
        trim_start_colons(s.drop_first())
    } else {
        s
    }
}

/// `s` without its trailing `:` characters.
pub open spec fn trim_end_colons(s: Seq<char>) -> Seq<char>
    decreases s.len(),
{
    if s.len() > 0 && s.last() == ':' {
        trim_end_colons(s.drop_last())
    } else {
        s
    }
}

/// One segment in OpenAPI form: a segment that starts with `:` becomes the
/// parameter name (without `:` at either end) in braces; any other segment
/// stays as it is.
pub open spec fn openapi_segment(seg: Seq<char>) -> Seq<char> {
    if seg.len() > 0 && seg[0] == ':' {
        seq!['{'] + trim_end_colons(trim_start_colons(seg)) + seq!['}']
    } else {
        seg
    }
}

/// Index of the first `/` in `s`, or `s.len()` if there is none.
pub open spec fn first_slash(s: Seq<char>) -> nat
    decreases s.len(),
{
    if s.len() == 0 {
        0
    } else if s[0] == '/' {
        0
    } else {
        1 + first_slash(s.drop_first())
    }
}

/// The OpenAPI form of a router path: the path split at each `/`, each
/// segment converted by [`openapi_segment`], joined again with `/`.
pub open spec fn openapi_path(s: Seq<char>) -> Seq<char>
    decreases s.len(),
{
    let k = first_slash(s);
    if k < s.len() {
        openapi_segment(s.subrange(0, k as int)) + seq!['/'] + openapi_path(
            s.subrange(k + 1 as int, s.len() as int),
        )
    } else {
        openapi_segment(s)
    }
}

proof fn lemma_first_slash(s: Seq<char>, k: int)
    requires
        0 <= k <= s.len(),
        forall|j: int| 0 <= j < k ==> s[j] != '/',
        k == s.len() || s[k] == '/',
    ensures
        first_slash(s) == k,
    decreases s.len(),
{
    if s.len() > 0 && s[0] != '/' {
        lemma_first_slash(s.drop_first(), k - 1);
    }
}

/// A path without any `:` is its own OpenAPI form.
pub proof fn lemma_path_without_parameters(s: Seq<char>)
    requires
        forall|j: int| 0 <= j < s.len() ==> s[j] != ':',
    ensures
        openapi_path(s) == s,
    decreases s.len(),
{
    let k = first_slash(s);
    lemma_first_slash_bound(s);
    if k < s.len() {
        let rest = s.subrange(k + 1 as int, s.len() as int);
        lemma_path_without_parameters(rest);
        let seg = s.subrange(0, k as int);
        assert(seg.len() == 0 || seg[0] != ':');
        assert(s =~= seg + seq![s[k as int]] + rest);
    } else {
        assert(s.len() == 0 || s[0] != ':');
    }
}

proof fn lemma_first_slash_bound(s: Seq<char>)
    ensures
        first_slash(s) <= s.len(),
        first_slash(s) < s.len() ==> s[first_slash(s) as int] == '/',
    decreases s.len(),
{
    if s.len() > 0 && s[0] != '/' {
        lemma_first_slash_bound(s.drop_first());
    }
}

fn openapi_segment_of(path: &str, a: usize, b: usize) -> (r: String)
    requires
        a <= b <= path@.len(),
    ensures
        r@ == openapi_segment(path@.subrange(a as int, b as int)),
{
    let ghost seg = path@.subrange(a as int, b as int);
    if a < b && path.get_char(a) == ':' {
        let mut i = a;
        while i < b && path.get_char(i) == ':'
            invariant
                a <= i <= b,
                b <= path@.len(),
                trim_start_colons(seg) == trim_start_colons(path@.subrange(i as int, b as int)),
            decreases b - i,
        {
            assert(path@.subrange(i as int, b as int).drop_first() =~= path@.subrange(
                i + 1,
                b as int,
            ));
            i = i + 1;
        }
        assert(trim_start_colons(path@.subrange(i as int, b as int)) == path@.subrange(
            i as int,
            b as int,
        ));
        let mut j = b;
        while j > i && path.get_char(j - 1) == ':'
            invariant
                i <= j <= b,
                b <= path@.len(),
                trim_end_colons(trim_start_colons(seg)) == trim_end_colons(
                    path@.subrange(i as int, j as int),
                ),
            decreases j - i,
        {
            assert(path@.subrange(i as int, j as int).drop_last() =~= path@.subrange(
                i as int,
                j - 1,
            ));
            j = j - 1;
        }
        let mut out = String::from_str("{");
        out.append(path.substring_char(i, j));
        out.append("}");
        proof {
            reveal_strlit("{");
            reveal_strlit("}");
        }
        out
    } else {
        String::from_str(path.substring_char(a, b))
    }
}

/// Converts a router path to an OpenAPI path template:
/// `/users/:id/posts/:post_id` becomes `/users/{id}/posts/{post_id}`.
pub fn convert_axum_path_to_openapi(path: &str) -> (r: String)
    ensures
        r@ == openapi_path(path@),
{
    let n = path.unicode_len();
    let mut out = String::new();
    let mut start: usize = 0;
    assert(path@.subrange(0, n as int) =~= path@);
    assert(out@ + openapi_path(path@) =~= openapi_path(path@));
    loop
        invariant
            n == path@.len(),
            start <= n,
            out@ + openapi_path(path@.subrange(start as int, n as int)) == openapi_path(path@),
        decreases n - start,
    {
        let ghost rest = path@.subrange(start as int, n as int);
        let mut k = start;
        while k < n && path.get_char(k) != '/'
            invariant
                start <= k <= n,
                n == path@.len(),
                forall|j: int| start <= j < k ==> path@[j] != '/',
            decreases n - k,
        {
            k = k + 1;
        }
        proof {
            lemma_first_slash(rest, k - start);
            assert(rest.subrange(0, (k - start) as int) =~= path@.subrange(start as int, k as int));
        }
        let seg = openapi_segment_of(path, start, k);
        let ghost before = out@;
        out.append(seg.as_str());
        if k < n {
            out.append("/");
            proof {
                reveal_strlit("/");
                assert(rest.subrange(k - start + 1, rest.len() as int) =~= path@.subrange(
                    k + 1,
                    n as int,
                ));
                assert(before + (openapi_segment(rest.subrange(0, (k - start) as int)) + seq!['/']
                    + openapi_path(path@.subrange(k + 1, n as int))) =~= out@ + openapi_path(
                    path@.subrange(k + 1, n as int),
                ));
            }
            start = k + 1;
        } else {
            proof {
                assert(rest =~= path@.subrange(start as int, k as int));
                assert(openapi_path(path@.subrange(n as int, n as int)) =~= seq![]) by {
                    assert(path@.subrange(n as int, n as int).len() == 0);
                }
            }
            return out;
        }
    }
}

} // verus!
