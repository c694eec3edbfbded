//! The response data the library reasons about: status, headers, body text
//! and elapsed time, as plain values.

use vstd::prelude::*;

use crate::http::types::Status;
use crate::text::eq_ignore_case_spec;
use crate::text::lower_seq;
use crate::text::str_chars;
use crate::text::eq_ignore_case;

verus! {

/// One HTTP response, as plain values. The transport that produced it
/// stays outside the library.
pub struct Response {
    pub status: Status,
    /// Header pairs in arrival order; lookup ignores ASCII case.
    pub headers: Vec<(String, String)>,
    /// The body, as text.
    pub body: String,
    /// Elapsed time of the exchange, in milliseconds.
    pub duration_ms: u64,
}

/// The value of the first header of the given name, ASCII
/// case-insensitively.
pub open spec fn header_lookup(
    headers: Seq<(Seq<char>, Seq<char>)>,
    name: Seq<char>,
) -> Option<Seq<char>>
    decreases headers.len(),
{
    if headers.len() == 0 {
        None
    } else if lower_seq(headers[0].0) == lower_seq(name) {
        Some(headers[0].1)
    } else {
        header_lookup(headers.drop_first(), name)
    }
}

pub proof fn lemma_header_lookup(headers: Seq<(Seq<char>, Seq<char>)>, name: Seq<char>)
    ensures
        match header_lookup(headers, name) {
            Some(v) => exists|j: int|
                0 <= j < headers.len() && eq_ignore_case_spec((#[trigger] headers[j]).0, name)
                    && headers[j].1 == v && forall|k: int|
                    0 <= k < j ==> !eq_ignore_case_spec(headers[k].0, name),
            None => forall|k: int|
                0 <= k < headers.len() ==> !eq_ignore_case_spec((#[trigger] headers[k]).0, name),
        },
    decreases headers.len(),
{
    if headers.len() > 0 && lower_seq(headers[0].0) != lower_seq(name) {
        lemma_header_lookup(headers.drop_first(), name);
        assert(forall|k: int|
            1 <= k < headers.len() ==> #[trigger] headers[k] == headers.drop_first()[k - 1]);
        match header_lookup(headers.drop_first(), name) {
            Some(v) => {
                let j = choose|j: int|
                    0 <= j < headers.drop_first().len() && eq_ignore_case_spec(
                        (#[trigger] headers.drop_first()[j]).0,
                        name,
                    ) && headers.drop_first()[j].1 == v && forall|k: int|
                        0 <= k < j ==> !eq_ignore_case_spec(headers.drop_first()[k].0, name);
                assert(eq_ignore_case_spec(headers[j + 1].0, name) && headers[j + 1].1 == v);
                assert(forall|k: int| 0 <= k < j + 1 ==> !eq_ignore_case_spec(headers[k].0, name));
            },
            None => {},
        }
    }
}

/// The view of a header list.
pub open spec fn headers_view(headers: Seq<(String, String)>) -> Seq<(Seq<char>, Seq<char>)> {
    headers.map_values(|h: (String, String)| (h.0@, h.1@))
}

impl Response {
    /// A response out of its parts; codes outside 100..600 are rejected.
    pub fn new(status: u16, headers: Vec<(String, String)>, body: String, duration_ms: u64) -> (r:
        crate::Result<Response>)
        ensures
            match r {
                Ok(resp) => 100 <= status < 600 && resp.status@ == status && resp.headers@
                    == headers@ && resp.body@ == body@ && resp.duration_ms == duration_ms,
                Err(_) => !(100 <= status < 600),
            },
    {
        match Status::new(status) {
            Ok(st) => Ok(Response { status: st, headers, body, duration_ms }),
            Err(e) => Err(e),
        }
    }

    /// The response that stands in for a failed exchange: a server-error
    /// status carrying the message as its body.
    pub fn error(message: String) -> (r: Response)
        ensures
            r.status@ == 500,
            r.body@ == message@,
            r.headers@.len() == 0,
            r.duration_ms == 0,
    {
        Response {
            status: Status::server_error(),
            headers: Vec::new(),
            body: message,
            duration_ms: 0,
        }
    }

    /// 2xx.
    pub fn is_success(&self) -> (r: bool)
        ensures
            r == (200 <= self.status@ <= 299),
    {
        self.status.is_success()
    }

    /// 3xx.
    pub fn is_redirect(&self) -> (r: bool)
        ensures
            r == (300 <= self.status@ <= 399),
    {
        self.status.is_redirect()
    }

    /// 4xx.
    pub fn is_client_error(&self) -> (r: bool)
        ensures
            r == (400 <= self.status@ <= 499),
    {
        self.status.is_client_error()
    }

    /// 5xx.
    pub fn is_server_error(&self) -> (r: bool)
        ensures
            r == (500 <= self.status@ <= 599),
    {
        self.status.is_server_error()
    }

    /// The body text.
    pub fn text(&self) -> (r: &str)
        ensures
            r@ == self.body@,
    {
        self.body.as_str()
    }

    /// The first header of the given name, ASCII case-insensitively.
    pub fn header<'a>(&'a self, name: &str) -> (r: Option<&'a str>)
        ensures
            match r {
                Some(v) => header_lookup(headers_view(self.headers@), name@) == Some(v@),
                None => header_lookup(headers_view(self.headers@), name@) is None,
            },
    {
        let nv = str_chars(name);
        let n = self.headers.len();
        let ghost hv = headers_view(self.headers@);
        let mut i: usize = 0;
        while i < n
            invariant
                0 <= i <= n == self.headers@.len(),
                hv == headers_view(self.headers@),
                forall|k: int| 0 <= k < i ==> !eq_ignore_case_spec((#[trigger] hv[k]).0, nv@),
                nv@ == name@,
            decreases n - i,
        {
            let kv = str_chars(self.headers[i].0.as_str());
            if eq_ignore_case(&kv, &nv) {
                proof {
                    assert(eq_ignore_case_spec(hv[i as int].0, nv@));
                    lemma_header_lookup(hv, nv@);
                }
                return Some(self.headers[i].1.as_str());
            }
            i = i + 1;
        }
        proof {
            lemma_header_lookup(hv, nv@);
        }
        None
    }
}

} // verus!
