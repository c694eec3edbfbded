//! The request data the library builds: everything a transport needs, as
//! plain values.

use vstd::prelude::*;

use crate::http::types::Method;
use crate::http::types::Url;
use crate::text::lower_seq;
use crate::text::str_chars;
use crate::text::chars_string;
use crate::text::to_lower_chars;

verus! {

/// How the body should travel: as JSON (with the matching content type) or
/// as plain text.
#[derive(Clone, Copy, PartialEq, Eq, Debug)]
pub enum BodyKind {
    Json,
    Text,
}

/// One request, ready for a transport: method, parsed URL, headers with
/// lower-cased names, an optional body, and query parameters.
pub struct Request {
    pub method: Method,
    pub url: Url,
    /// Header pairs; names are stored ASCII lower-cased, later values of
    /// the same name replace earlier ones.
    pub headers: Vec<(String, String)>,
    pub body: Option<String>,
    pub body_kind: BodyKind,
    pub query_params: Vec<(String, String)>,
}

/// The pairs of `headers[i..end)` whose name is not `name`, in order.
pub open spec fn remove_name(
    headers: Seq<(Seq<char>, Seq<char>)>,
    name: Seq<char>,
    i: int,
    end: int,
) -> Seq<(Seq<char>, Seq<char>)>
    decreases end - i,
{
    if i < 0 || i >= end || i >= headers.len() {
        Seq::empty()
    } else {
        let rest = remove_name(headers, name, i + 1, end);
        if headers[i].0 == name {
            rest
        } else {
            seq![headers[i]] + rest
        }
    }
}

pub proof fn lemma_remove_name_snoc(
    headers: Seq<(Seq<char>, Seq<char>)>,
    name: Seq<char>,
    i: int,
    j: int,
)
    requires
        0 <= i <= j < headers.len(),
    ensures
        remove_name(headers, name, i, j + 1) == remove_name(headers, name, i, j) + (
        if headers[j].0 == name {
            Seq::<(Seq<char>, Seq<char>)>::empty()
        } else {
            seq![headers[j]]
        }),
    decreases j - i,
{
    let tail = if headers[j].0 == name {
        Seq::<(Seq<char>, Seq<char>)>::empty()
    } else {
        seq![headers[j]]
    };
    if i == j {
        assert(remove_name(headers, name, i, i) =~= Seq::<(Seq<char>, Seq<char>)>::empty());
        assert(remove_name(headers, name, j + 1, j + 1) =~= Seq::<
            (Seq<char>, Seq<char>),
        >::empty());
        assert(remove_name(headers, name, i, j + 1) =~= remove_name(headers, name, i, j) + tail);
    } else {
        lemma_remove_name_snoc(headers, name, i + 1, j);
        if headers[i].0 == name {
            assert(remove_name(headers, name, i, j + 1) =~= remove_name(headers, name, i, j)
                + tail);
        } else {
            assert(seq![headers[i]] + (remove_name(headers, name, i + 1, j) + tail) =~= (seq![
                headers[i],
            ] + remove_name(headers, name, i + 1, j)) + tail);
            assert(remove_name(headers, name, i, j + 1) =~= remove_name(headers, name, i, j)
                + tail);
        }
    }
}

/// The header list after setting a name to a value: every pair of that
/// name is dropped and the new pair appended.
pub open spec fn header_set(
    headers: Seq<(Seq<char>, Seq<char>)>,
    name: Seq<char>,
    value: Seq<char>,
) -> Seq<(Seq<char>, Seq<char>)> {
    remove_name(headers, name, 0, headers.len() as int).push((name, value))
}

impl Request {
    /// A request out of a method name and a URL text; either may be
    /// rejected.
    pub fn new(method: &str, url: &str) -> (r: crate::Result<Request>)
        ensures
            match r {
                Ok(req) => crate::http::types::method_of(crate::text::upper_seq(method@)) == Some(
                    req.method,
                ) && req.headers@.len() == 0 && req.body is None && req.query_params@.len() == 0,
                Err(_) => crate::http::types::method_of(crate::text::upper_seq(method@)) is None
                    || crate::http::types::url_parse_of(
                    crate::http::types::normalize_spec(url@),
                ) is None,
            },
    {
        let m = match Method::parse(method) {
            Ok(m) => m,
            Err(e) => {
                return Err(e);
            },
        };
        let u = match Url::parse(url) {
            Ok(u) => u,
            Err(e) => {
                return Err(e);
            },
        };
        Ok(
            Request {
                method: m,
                url: u,
                headers: Vec::new(),
                body: None,
                body_kind: BodyKind::Text,
                query_params: Vec::new(),
            },
        )
    }

    /// Set a header, lower-casing its name; a later value of the same name
    /// wins, as a header map's insert would make it.
    pub fn insert_header(&mut self, key: &str, value: &str)
        ensures
            crate::http::response::headers_view(final(self).headers@) == header_set(
                crate::http::response::headers_view(old(self).headers@),
                lower_seq(key@),
                value@,
            ),
            final(self).method == old(self).method,
            final(self).body == old(self).body,
            final(self).body_kind == old(self).body_kind,
            final(self).query_params == old(self).query_params,
            final(self).url == old(self).url,
    {
        let kv = str_chars(key);
        let lk = to_lower_chars(&kv);
        let ghost target = lower_seq(key@);
        let ghost old_hv = crate::http::response::headers_view(self.headers@);
        let mut kept: Vec<(String, String)> = Vec::new();
        let n = self.headers.len();
        proof {
            assert(crate::http::response::headers_view(kept@) =~= remove_name(
                old_hv,
                target,
                0,
                0,
            ));
        }
        let mut i: usize = 0;
        while i < n
            invariant
                0 <= i <= n == self.headers@.len(),
                old_hv == crate::http::response::headers_view(self.headers@),
                target == lower_seq(key@),
                lk@ == target,
                crate::http::response::headers_view(kept@) == remove_name(
                    old_hv,
                    target,
                    0,
                    i as int,
                ),
            decreases n - i,
        {
            let hk = str_chars(self.headers[i].0.as_str());
            if !crate::text::eq_str(&hk, chars_string(&lk).as_str()) {
                let ghost kept_pre = kept@;
                kept.push(
                    (self.headers[i].0.clone(), self.headers[i].1.clone()),
                );
                proof {
                    assert(crate::http::response::headers_view(kept@)
                        =~= crate::http::response::headers_view(kept_pre).push(old_hv[i as int]));
                }
            }
            proof {
                lemma_remove_name_snoc(old_hv, target, 0, i as int);
                assert(old_hv[i as int].0 == self.headers@[i as int].0@);
                if self.headers@[i as int].0@ != target {
                    assert(crate::http::response::headers_view(kept@) =~= remove_name(
                        old_hv,
                        target,
                        0,
                        i as int,
                    ) + seq![old_hv[i as int]]);
                }
            }
            i = i + 1;
        }
        let ghost kept_final = kept@;
        kept.push((chars_string(&lk), value.to_owned()));
        proof {
            assert(crate::http::response::headers_view(kept@)
                =~= crate::http::response::headers_view(kept_final).push((target, value@)));
        }
        self.headers = kept;
        proof {
            assert(crate::http::response::headers_view(self.headers@) =~= header_set(
                old_hv,
                target,
                value@,
            ));
        }
    }

    /// The same request with one header set.
    pub fn with_header(self, key: &str, value: &str) -> (r: Request)
        ensures
            crate::http::response::headers_view(r.headers@) == header_set(
                crate::http::response::headers_view(self.headers@),
                lower_seq(key@),
                value@,
            ),
            r.method == self.method,
            r.body == self.body,
            r.body_kind == self.body_kind,
            r.query_params == self.query_params,
            r.url == self.url,
    {
        let mut s = self;
        s.insert_header(key, value);
        s
    }

    /// The same request carrying the given text as its body.
    pub fn with_text(self, text: &str) -> (r: Request)
        ensures
            r.body matches Some(b) && b@ == text@,
            r.body_kind == BodyKind::Text,
            r.headers == self.headers,
            r.method == self.method,
            r.url == self.url,
            r.query_params == self.query_params,
    {
        let mut s = self;
        s.body = Some(text.to_owned());
        s.body_kind = BodyKind::Text;
        s
    }

    /// The same request carrying the given text as a JSON body, with the
    /// content type set accordingly.
    pub fn with_json(self, json_text: &str) -> (r: Request)
        ensures
            r.body matches Some(b) && b@ == json_text@,
            r.body_kind == BodyKind::Json,
            crate::http::response::headers_view(r.headers@) == header_set(
                crate::http::response::headers_view(self.headers@),
                "content-type"@,
                "application/json"@,
            ),
            r.method == self.method,
            r.url == self.url,
            r.query_params == self.query_params,
    {
        let mut s = self;
        s.insert_header("Content-Type", "application/json");
        proof {
            assert(lower_seq("Content-Type"@) =~= "content-type"@) by {
                reveal_strlit("Content-Type");
                reveal_strlit("content-type");
            }
        }
        s.body = Some(json_text.to_owned());
        s.body_kind = BodyKind::Json;
        s
    }

    /// The same request carrying the given raw body.
    pub fn with_body(self, body: &str) -> (r: Request)
        ensures
            r.body matches Some(b) && b@ == body@,
            r.headers == self.headers,
            r.method == self.method,
            r.url == self.url,
            r.query_params == self.query_params,
    {
        let mut s = self;
        s.body = Some(body.to_owned());
        s
    }

    /// The same request with one more query parameter; a repeated name
    /// keeps only the latest value.
    pub fn with_query(self, key: &str, value: &str) -> (r: Request)
        ensures
            crate::http::response::headers_view(r.query_params@) == header_set(
                crate::http::response::headers_view(self.query_params@),
                key@,
                value@,
            ),
            r.headers == self.headers,
            r.method == self.method,
            r.url == self.url,
            r.body == self.body,
    {
        let ghost target = key@;
        let ghost old_qv = crate::http::response::headers_view(self.query_params@);
        let mut s = self;
        let mut kept: Vec<(String, String)> = Vec::new();
        let n = s.query_params.len();
        let kv = str_chars(key);
        proof {
            assert(crate::http::response::headers_view(kept@) =~= remove_name(
                old_qv,
                target,
                0,
                0,
            ));
        }
        let mut i: usize = 0;
        while i < n
            invariant
                0 <= i <= n == s.query_params@.len(),
                old_qv == crate::http::response::headers_view(s.query_params@),
                target == key@,
                kv@ == key@,
                crate::http::response::headers_view(kept@) == remove_name(
                    old_qv,
                    target,
                    0,
                    i as int,
                ),
            decreases n - i,
        {
            let qk = str_chars(s.query_params[i].0.as_str());
            let mut same = qk.len() == kv.len();
            if same {
                let m = qk.len();
                let mut c: usize = 0;
                while c < m
                    invariant
                        0 <= c <= m == qk@.len() == kv@.len(),
                        same == (forall|t: int| 0 <= t < c ==> qk@[t] == kv@[t]),
                    decreases m - c,
                {
                    if qk[c] != kv[c] {
                        same = false;
                        c = m;
                    } else {
                        c = c + 1;
                    }
                }
            }
            proof {
                if same {
                    assert(qk@ =~= kv@);
                }
            }
            if !same {
                let ghost kept_pre = kept@;
                kept.push((s.query_params[i].0.clone(), s.query_params[i].1.clone()));
                proof {
                    assert(crate::http::response::headers_view(kept@)
                        =~= crate::http::response::headers_view(kept_pre).push(old_qv[i as int]));
                }
            }
            proof {
                lemma_remove_name_snoc(old_qv, target, 0, i as int);
                assert(old_qv[i as int].0 == s.query_params@[i as int].0@);
                if s.query_params@[i as int].0@ != target {
                    assert(crate::http::response::headers_view(kept@) =~= remove_name(
                        old_qv,
                        target,
                        0,
                        i as int,
                    ) + seq![old_qv[i as int]]);
                }
            }
            i = i + 1;
        }
        let ghost kept_final = kept@;
        kept.push((key.to_owned(), value.to_owned()));
        proof {
            assert(crate::http::response::headers_view(kept@)
                =~= crate::http::response::headers_view(kept_final).push((target, value@)));
        }
        s.query_params = kept;
        proof {
            assert(crate::http::response::headers_view(s.query_params@) =~= header_set(
                old_qv,
                target,
                value@,
            ));
        }
        s
    }

    /// The same request with a bearer-token authorization header.
    pub fn with_auth_bearer(self, token: &str) -> (r: Request)
        ensures
            crate::http::response::headers_view(r.headers@) == header_set(
                crate::http::response::headers_view(self.headers@),
                "authorization"@,
                "Bearer "@ + token@,
            ),
            r.method == self.method,
            r.url == self.url,
            r.body == self.body,
            r.query_params == self.query_params,
    {
        let mut value = str_chars("Bearer ");
        let tv = str_chars(token);
        value = crate::http::types::append_chars(value, &tv);
        let vs = chars_string(&value);
        let mut s = self;
        s.insert_header("Authorization", vs.as_str());
        proof {
            assert(lower_seq("Authorization"@) =~= "authorization"@) by {
                reveal_strlit("Authorization");
                reveal_strlit("authorization");
            }
        }
        s
    }
}

} // verus!
