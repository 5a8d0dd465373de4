use vstd::prelude::*;
use vstd::string::StringSliceAdditionalSpecFns;
use crate::text::{contains_seq, contains_sub, ends_with, starts_with};

verus! {

/// The suffix on a model identifier that asks the gateway to suppress
/// reasoning content in the response.
pub open spec fn no_thought_suffix() -> Seq<u8> {
    "-no-thought-process".spec_bytes()
}

/// Splits the inbound model identifier into the name the upstream is called
/// with and the suppress-reasoning flag; the flag is set exactly when the
/// suffix is present, and then the name is the identifier with the suffix
/// removed.
pub fn strip_model_suffix(model: &[u8]) -> (r: (Vec<u8>, bool))
    ensures
        r.1 == no_thought_suffix().is_suffix_of(model@),
        r.0@ == if r.1 {
            model@.take(model@.len() - no_thought_suffix().len())
        } else {
            model@
        },
{
    let suffix = "-no-thought-process".as_bytes();
    if ends_with(model, suffix) {
        let head = vstd::slice::slice_subrange(model, 0, model.len() - suffix.len());
        (vstd::slice::slice_to_vec(head), true)
    } else {
        (vstd::slice::slice_to_vec(model), false)
    }
}

/// The token after the first `=` of a query string, up to the next `=` or the
/// end, if the string has any `=` at all.
pub open spec fn query_token(q: Seq<u8>) -> Option<Seq<u8>>
    decreases q.len(),
{
    if q.len() == 0 {
        Option::None
    } else if q[0] == "=".spec_bytes()[0] {
        Option::Some(head_to_eq(q.skip(1)))
    } else {
        query_token(q.skip(1))
    }
}

/// The longest prefix of `s` that holds no `=`.
pub open spec fn head_to_eq(s: Seq<u8>) -> Seq<u8>
    decreases s.len(),
{
    if s.len() == 0 {
        s
    } else if s[0] == "=".spec_bytes()[0] {
        Seq::empty()
    } else {
        seq![s[0]] + head_to_eq(s.skip(1))
    }
}

/// The bearer credential: the `Authorization` header value after `Bearer `,
/// or, when the header is absent or shaped otherwise, the value after the
/// first `=` of the query string.
pub open spec fn api_key_of(auth: Option<Seq<u8>>, query: Option<Seq<u8>>) -> Option<Seq<u8>> {
    let from_header = match auth {
        Option::Some(a) => if "Bearer ".spec_bytes().is_prefix_of(a) {
            Option::Some(a.skip("Bearer ".spec_bytes().len() as int))
        } else {
            Option::None
        },
        Option::None => Option::None,
    };
    match from_header {
        Option::Some(k) => Option::Some(k),
        Option::None => match query {
            Option::Some(q) => query_token(q),
            Option::None => Option::None,
        },
    }
}

/// Finds the first `=` of `s`, as `query_token` counts.
fn find_eq(s: &[u8]) -> (r: Option<usize>)
    ensures
        match r {
            Some(p) => p < s@.len() && s@[p as int] == "=".spec_bytes()[0] && forall|j: int|
                0 <= j < p ==> s@[j] != "=".spec_bytes()[0],
            None => forall|j: int| 0 <= j < s@.len() ==> s@[j] != "=".spec_bytes()[0],
        },
{
    let eq = "=".as_bytes();
    proof {
        broadcast use vstd::string::is_ascii_spec_bytes;

        reveal_strlit("=");
        assert(vstd::string::is_ascii("="));
        assert("=".spec_bytes().len() == 1);
    }
    let mut i: usize = 0;
    while i < s.len()
        invariant
            0 <= i <= s@.len(),
            eq@ == "=".spec_bytes(),
            "=".spec_bytes().len() == 1,
            forall|j: int| 0 <= j < i ==> s@[j] != "=".spec_bytes()[0],
        decreases s@.len() - i,
    {
        if s[i] == eq[0] {
            return Some(i);
        }
        i += 1;
    }
    None
}

/// How the first `=` position determines `query_token`.
proof fn lemma_query_token_at(q: Seq<u8>, p: int)
    requires
        0 <= p < q.len(),
        q[p] == "=".spec_bytes()[0],
        forall|j: int| 0 <= j < p ==> q[j] != "=".spec_bytes()[0],
    ensures
        query_token(q) == Some(head_to_eq(q.skip(p + 1))),
    decreases p,
{
    if p == 0 {
    } else {
        assert(q.skip(1)[p - 1] == q[p]);
        assert forall|j: int| 0 <= j < p - 1 implies q.skip(1)[j] != "=".spec_bytes()[0] by {
            assert(q.skip(1)[j] == q[j + 1]);
        }
        lemma_query_token_at(q.skip(1), p - 1);
        assert(q.skip(1).skip(p) =~= q.skip(p + 1));
    }
}

/// When `q` has no `=`, there is no query token.
proof fn lemma_query_token_none(q: Seq<u8>)
    requires
        forall|j: int| 0 <= j < q.len() ==> q[j] != "=".spec_bytes()[0],
    ensures
        query_token(q) is None,
    decreases q.len(),
{
    if q.len() > 0 {
        assert forall|j: int| 0 <= j < q.skip(1).len() implies q.skip(1)[j]
            != "=".spec_bytes()[0] by {
            assert(q.skip(1)[j] == q[j + 1]);
        }
        lemma_query_token_none(q.skip(1));
    }
}

/// How a stretch without `=` determines `head_to_eq`.
proof fn lemma_head_to_eq(s: Seq<u8>, p: int)
    requires
        0 <= p <= s.len(),
        forall|j: int| 0 <= j < p ==> s[j] != "=".spec_bytes()[0],
        p < s.len() ==> s[p] == "=".spec_bytes()[0],
    ensures
        head_to_eq(s) == s.take(p),
    decreases p,
{
    if p == 0 {
        assert(head_to_eq(s) =~= s.take(0));
    } else {
        assert forall|j: int| 0 <= j < p - 1 implies s.skip(1)[j] != "=".spec_bytes()[0] by {
            assert(s.skip(1)[j] == s[j + 1]);
        }
        assert(p - 1 < s.skip(1).len() ==> s.skip(1)[p - 1] == s[p]);
        lemma_head_to_eq(s.skip(1), p - 1);
        assert(seq![s[0]] + s.skip(1).take(p - 1) =~= s.take(p));
    }
}

/// Extracts the bearer credential as `api_key_of` describes.
pub fn extract_api_key(auth: Option<&Vec<u8>>, query: Option<&Vec<u8>>) -> (r: Option<Vec<u8>>)
    ensures
        match r {
            Some(k) => api_key_of(
                match auth {
                    Some(a) => Some(a@),
                    None => None,
                },
                match query {
                    Some(q) => Some(q@),
                    None => None,
                },
            ) == Some(k@),
            None => api_key_of(
                match auth {
                    Some(a) => Some(a@),
                    None => None,
                },
                match query {
                    Some(q) => Some(q@),
                    None => None,
                },
            ) is None,
        },
{
    let bearer = "Bearer ".as_bytes();
    if let Some(a) = auth {
        if starts_with(a.as_slice(), bearer) {
            let tail = vstd::slice::slice_subrange(a.as_slice(), bearer.len(), a.len());
            return Some(vstd::slice::slice_to_vec(tail));
        }
    }
    if let Some(q) = query {
        let qs = q.as_slice();
        let qlen = qs.len();
        match find_eq(qs) {
            Some(p) => {
                proof {
                    lemma_query_token_at(q@, p as int);
                    assert(p < qlen);
                }
                let rest = vstd::slice::slice_subrange(qs, p + 1, qlen);
                let token = match find_eq(rest) {
                    Some(p2) => {
                        proof {
                            lemma_head_to_eq(rest@, p2 as int);
                        }
                        vstd::slice::slice_to_vec(
                            vstd::slice::slice_subrange(rest, 0, p2),
                        )
                    },
                    None => {
                        proof {
                            lemma_head_to_eq(rest@, rest@.len() as int);
                            assert(rest@.take(rest@.len() as int) =~= rest@);
                        }
                        vstd::slice::slice_to_vec(rest)
                    },
                };
                proof {
                    assert(q@.skip(p as int + 1) == rest@);
                }
                Some(token)
            },
            None => {
                proof {
                    lemma_query_token_none(q@);
                }
                None
            },
        }
    } else {
        None
    }
}

/// The one route the gateway serves.
pub fn route_is_chat_completions(path: &[u8]) -> (r: bool)
    ensures
        r == "/v1/chat/completions".spec_bytes().is_prefix_of(path@),
{
    starts_with(path, "/v1/chat/completions".as_bytes())
}

/// Whether an upstream response header is passed through to the caller: all
/// are, except a content-encoding header, which the gateway must not repeat
/// since it re-encodes the body itself.
pub fn header_is_forwarded(name: &[u8]) -> (r: bool)
    ensures
        r == !contains_seq(name@, "content-encoding".spec_bytes()),
{
    !contains_sub(name, "content-encoding".as_bytes())
}

} // verus!
