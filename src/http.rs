use vstd::prelude::*;
use vstd::string::StringExecFns;

verus! {

/// The request methods that the routes distinguish.
#[derive(Clone, Copy, Debug, PartialEq, Eq, Structural)]
pub enum Method {
    Get,
    Put,
    Post,
    Other,
}

/// An HTTP response: status code, headers in the order they were set, body.
#[derive(Debug)]
pub struct Response {
    pub status: u16,
    pub headers: Vec<(String, String)>,
    pub body: String,
}

pub open spec fn allow_origin_name() -> Seq<char> {
    "Access-Control-Allow-Origin"@
}

pub open spec fn allow_headers_name() -> Seq<char> {
    "Access-Control-Allow-Headers"@
}

pub open spec fn allowed_headers() -> Seq<char> {
    "Origin X-Requested-With Content-Type Accept"@
}

/// `r` carries a header `name: value`.
pub open spec fn has_header(r: &Response, name: Seq<char>, value: Seq<char>) -> bool {
    exists|i: int|
        0 <= i < r.headers@.len() && (#[trigger] r.headers@[i]).0@ == name && r.headers@[i].1@
            == value
}

/// `r` carries the permissive cross-origin headers.
pub open spec fn has_cors(r: &Response) -> bool {
    &&& has_header(r, allow_origin_name(), "*"@)
    &&& has_header(r, allow_headers_name(), allowed_headers())
}

/// Every header of `r` named like one of the cross-origin headers has that
/// header's fixed value.
pub open spec fn cors_values_only(r: &Response) -> bool {
    forall|i: int|
        0 <= i < r.headers@.len() ==> {
            &&& (#[trigger] r.headers@[i]).0@ == allow_origin_name() ==> r.headers@[i].1@ == "*"@
            &&& r.headers@[i].0@ == allow_headers_name() ==> r.headers@[i].1@ == allowed_headers()
        }
}

pub open spec fn is_cors_name(name: Seq<char>) -> bool {
    name == allow_origin_name() || name == allow_headers_name()
}

/// The headers as pairs of texts.
pub open spec fn header_texts(hs: Seq<(String, String)>) -> Seq<(Seq<char>, Seq<char>)> {
    hs.map_values(|h: (String, String)| (h.0@, h.1@))
}

/// The headers of `hs` that are not cross-origin headers, in order.
pub open spec fn without_cors(hs: Seq<(Seq<char>, Seq<char>)>) -> Seq<(Seq<char>, Seq<char>)>
    decreases hs.len(),
{
    if hs.len() == 0 {
        hs
    } else if is_cors_name(hs.last().0) {
        without_cors(hs.drop_last())
    } else {
        without_cors(hs.drop_last()).push(hs.last())
    }
}

/// The two cross-origin headers, in the order they are set.
pub open spec fn cors_headers() -> Seq<(Seq<char>, Seq<char>)> {
    seq![(allow_origin_name(), "*"@), (allow_headers_name(), allowed_headers())]
}

proof fn lemma_without_cors_names(hs: Seq<(Seq<char>, Seq<char>)>)
    ensures
        forall|i: int| 0 <= i < without_cors(hs).len() ==> !is_cors_name(#[trigger] without_cors(hs)[i].0),
    decreases hs.len(),
{
    if hs.len() > 0 {
        let p = hs.drop_last();
        lemma_without_cors_names(p);
        if !is_cors_name(hs.last().0) {
            assert forall|i: int| 0 <= i < without_cors(hs).len() implies !is_cors_name(
                #[trigger] without_cors(hs)[i].0,
            ) by {
                if i < without_cors(p).len() {
                    assert(without_cors(hs)[i] == without_cors(p)[i]);
                }
            }
        }
    }
}

/// Sets the cross-origin headers on a response: any origin, and the fixed
/// list of allowed request headers. Earlier headers of those two names are
/// dropped; status, body and the other headers stay, in their order.
pub fn enable_cors(res: &mut Response)
    ensures
        final(res).status == old(res).status,
        final(res).body@ == old(res).body@,
        header_texts(final(res).headers@) == without_cors(header_texts(old(res).headers@)) + cors_headers(),
        has_cors(final(res)),
        cors_values_only(final(res)),
{
    let mut kept: Vec<(String, String)> = Vec::new();
    let mut i: usize = 0;
    while i < res.headers.len()
        invariant
            i <= res.headers@.len(),
            header_texts(kept@) == without_cors(header_texts(res.headers@.subrange(0, i as int))),
        decreases res.headers@.len() - i,
    {
        let h = &res.headers[i];
        let cors = crate::router::same_text(h.0.as_str(), "Access-Control-Allow-Origin")
            || crate::router::same_text(h.0.as_str(), "Access-Control-Allow-Headers");
        let ghost prev = kept@;
        if !cors {
            kept.push((h.0.clone(), h.1.clone()));
        }
        proof {
            let sub = res.headers@.subrange(0, i as int);
            let next = res.headers@.subrange(0, i + 1);
            assert(next =~= sub.push(res.headers@[i as int]));
            assert(header_texts(next) =~= header_texts(sub).push((h.0@, h.1@)));
            assert(header_texts(next).drop_last() =~= header_texts(sub));
            if !cors {
                assert(header_texts(kept@) =~= header_texts(prev).push((h.0@, h.1@)));
            }
        }
        i = i + 1;
    }
    assert(res.headers@.subrange(0, res.headers@.len() as int) =~= res.headers@);
    let ghost before = kept@;
    kept.push((String::from_str("Access-Control-Allow-Origin"), String::from_str("*")));
    kept.push(
        (
            String::from_str("Access-Control-Allow-Headers"),
            String::from_str("Origin X-Requested-With Content-Type Accept"),
        ),
    );
    res.headers = kept;
    proof {
        let n = before.len() as int;
        let old_texts = header_texts(old(res).headers@);
        assert(header_texts(res.headers@) =~= header_texts(before) + cors_headers());
        lemma_without_cors_names(old_texts);
        reveal_strlit("Access-Control-Allow-Origin");
        reveal_strlit("Access-Control-Allow-Headers");
        assert(allow_origin_name() != allow_headers_name()) by {
            assert(allow_origin_name()[21] != allow_headers_name()[21]);
        }
        assert(res.headers@[n].0@ == allow_origin_name());
        assert(res.headers@[n + 1].0@ == allow_headers_name());
        assert forall|j: int| 0 <= j < res.headers@.len() implies {
            &&& (#[trigger] res.headers@[j]).0@ == allow_origin_name() ==> res.headers@[j].1@ == "*"@
            &&& res.headers@[j].0@ == allow_headers_name() ==> res.headers@[j].1@ == allowed_headers()
        } by {
            if j < n {
                assert(header_texts(res.headers@)[j] == without_cors(old_texts)[j]);
                assert(!is_cors_name(without_cors(old_texts)[j].0));
            }
        }
    }
}

impl Response {
    /// A response with the given status and body and the cross-origin headers.
    pub fn new(status: u16, body: String) -> (r: Response)
        ensures
            r.status == status,
            r.body@ == body@,
            header_texts(r.headers@) == cors_headers(),
            has_cors(&r),
            cors_values_only(&r),
    {
        let mut r = Response { status, headers: Vec::new(), body };
        enable_cors(&mut r);
        assert(header_texts(Seq::<(String, String)>::empty()) =~= Seq::empty());
        assert(without_cors(Seq::empty()) + cors_headers() =~= cors_headers());
        r
    }
}

} // verus!
