//! HTTP methods, status codes and URLs as plain, checked values.

use vstd::prelude::*;

use crate::text::dec_of;
use crate::text::eq_str;
use crate::text::find_sub_from;
use crate::text::str_chars;
use crate::text::chars_string;
use crate::text::trim_chars;
use crate::text::trim_spec;
use crate::RupostError;

verus! {

/// A recognised HTTP method.
#[derive(Clone, Copy, PartialEq, Eq, Debug)]
pub enum Method {
    Get,
    Post,
    Put,
    Delete,
    Patch,
    Head,
    Options,
}

/// The method a given upper-cased name denotes, if any.
pub open spec fn method_of(u: Seq<char>) -> Option<Method> {
    if u == "GET"@ {
        Some(Method::Get)
    } else if u == "POST"@ {
        Some(Method::Post)
    } else if u == "PUT"@ {
        Some(Method::Put)
    } else if u == "DELETE"@ {
        Some(Method::Delete)
    } else if u == "PATCH"@ {
        Some(Method::Patch)
    } else if u == "HEAD"@ {
        Some(Method::Head)
    } else if u == "OPTIONS"@ {
        Some(Method::Options)
    } else {
        None
    }
}

/// The canonical name of a method.
pub open spec fn method_name(m: Method) -> Seq<char> {
    match m {
        Method::Get => "GET"@,
        Method::Post => "POST"@,
        Method::Put => "PUT"@,
        Method::Delete => "DELETE"@,
        Method::Patch => "PATCH"@,
        Method::Head => "HEAD"@,
        Method::Options => "OPTIONS"@,
    }
}

impl Method {
    /// Parse a method name, ignoring ASCII case.
    pub fn parse(s: &str) -> (r: crate::Result<Method>)
        ensures
            match r {
                Ok(m) => method_of(crate::text::upper_seq(s@)) == Some(m),
                Err(_) => method_of(crate::text::upper_seq(s@)) is None,
            },
    {
        let v = str_chars(s);
        let u = crate::text::to_upper_chars(&v);
        if eq_str(&u, "GET") {
            Ok(Method::Get)
        } else if eq_str(&u, "POST") {
            Ok(Method::Post)
        } else if eq_str(&u, "PUT") {
            Ok(Method::Put)
        } else if eq_str(&u, "DELETE") {
            Ok(Method::Delete)
        } else if eq_str(&u, "PATCH") {
            Ok(Method::Patch)
        } else if eq_str(&u, "HEAD") {
            Ok(Method::Head)
        } else if eq_str(&u, "OPTIONS") {
            Ok(Method::Options)
        } else {
            Err(RupostError::ParseError("invalid HTTP method".to_owned()))
        }
    }

    /// The canonical name.
    pub fn as_str(&self) -> (r: &str)
        ensures
            r@ == method_name(*self),
    {
        match self {
            Method::Get => "GET",
            Method::Post => "POST",
            Method::Put => "PUT",
            Method::Delete => "DELETE",
            Method::Patch => "PATCH",
            Method::Head => "HEAD",
            Method::Options => "OPTIONS",
        }
    }
}

/// An HTTP status code, always in 100..600.
#[derive(Clone, Copy, PartialEq, Eq, Debug)]
pub struct Status {
    code: u16,
}

impl View for Status {
    type V = u16;

    closed spec fn view(&self) -> u16 {
        self.code
    }
}

impl Status {
    /// A checked status code: values outside 100..600 are rejected.
    pub fn new(code: u16) -> (r: crate::Result<Status>)
        ensures
            match r {
                Ok(s) => 100 <= code < 600 && s@ == code,
                Err(_) => !(100 <= code < 600),
            },
    {
        if 100 <= code && code < 600 {
            Ok(Status { code })
        } else {
            Err(RupostError::ParseError("invalid HTTP status code".to_owned()))
        }
    }

    /// The 500 status, for responses that stand in for transport failures.
    pub fn server_error() -> (r: Status)
        ensures
            r@ == 500,
    {
        Status { code: 500 }
    }

    /// The numeric code.
    pub fn code(&self) -> (r: u16)
        ensures
            r == self@,
    {
        self.code
    }

    /// 2xx.
    pub fn is_success(&self) -> (r: bool)
        ensures
            r == (200 <= self@ <= 299),
    {
        200 <= self.code && self.code <= 299
    }

    /// 3xx.
    pub fn is_redirect(&self) -> (r: bool)
        ensures
            r == (300 <= self@ <= 399),
    {
        300 <= self.code && self.code <= 399
    }

    /// 4xx.
    pub fn is_client_error(&self) -> (r: bool)
        ensures
            r == (400 <= self@ <= 499),
    {
        400 <= self.code && self.code <= 499
    }

    /// 5xx.
    pub fn is_server_error(&self) -> (r: bool)
        ensures
            r == (500 <= self@ <= 599),
    {
        500 <= self.code && self.code <= 599
    }

    /// The conventional reason phrase of a handful of common codes.
    pub fn reason_phrase(&self) -> (r: &'static str)
        ensures
            r@ == reason_phrase_spec(self@),
    {
        match self.code {
            200 => "OK",
            201 => "Created",
            204 => "No Content",
            400 => "Bad Request",
            401 => "Unauthorized",
            403 => "Forbidden",
            404 => "Not Found",
            405 => "Method Not Allowed",
            500 => "Internal Server Error",
            502 => "Bad Gateway",
            503 => "Service Unavailable",
            _ => "Unknown",
        }
    }
}

/// The conventional reason phrase of a handful of common codes.
pub open spec fn reason_phrase_spec(code: u16) -> Seq<char> {
    if code == 200 {
        "OK"@
    } else if code == 201 {
        "Created"@
    } else if code == 204 {
        "No Content"@
    } else if code == 400 {
        "Bad Request"@
    } else if code == 401 {
        "Unauthorized"@
    } else if code == 403 {
        "Forbidden"@
    } else if code == 404 {
        "Not Found"@
    } else if code == 405 {
        "Method Not Allowed"@
    } else if code == 500 {
        "Internal Server Error"@
    } else if code == 502 {
        "Bad Gateway"@
    } else if code == 503 {
        "Service Unavailable"@
    } else {
        "Unknown"@
    }
}

/// The split parts of a URL exactly as the parser reports them, before this
/// library applies its defaults.
pub struct UrlRaw {
    pub scheme: String,
    pub host: Option<String>,
    pub port: Option<u16>,
    pub path: String,
    pub query: Option<String>,
    pub fragment: Option<String>,
}

/// What parsing a given absolute-URL text yields; the result depends on the
/// text alone.
pub uninterp spec fn url_parse_of(s: Seq<char>) -> Option<UrlRaw>;

/// Relies on url::Url::parse and its accessors scheme, host_str, port,
/// path, query and fragment: parsing either rejects the text or splits it
/// into these parts, deterministically.
#[verifier::external_body]
fn parse_url_raw(s: &str) -> (r: Option<UrlRaw>)
    ensures
        r == url_parse_of(s@),
{
    match url::Url::parse(s) {
        Ok(u) => Some(
            UrlRaw {
                scheme: u.scheme().to_string(),
                host: u.host_str().map(|h| h.to_string()),
                port: u.port(),
                path: u.path().to_string(),
                query: u.query().map(|q| q.to_string()),
                fragment: u.fragment().map(|f| f.to_string()),
            },
        ),
        Err(_) => None,
    }
}

/// A URL with this library's defaults applied: scheme and host filled in,
/// port made explicit, path never empty.
pub struct Url {
    pub scheme: String,
    pub host: String,
    pub port: u16,
    pub path: String,
    pub query: String,
    pub fragment: String,
}

/// The shorthand expansion applied before parsing: a bare `:port` gains
/// scheme and host, a scheme-less form gains `http://`, and an empty host
/// after the scheme becomes `localhost`.
pub open spec fn normalize_spec(s: Seq<char>) -> Seq<char> {
    let t = trim_spec(s);
    if t.len() > 0 && t[0] == ':' {
        "http://localhost"@ + t
    } else if find_sub_from(t, "://"@, 0) is None {
        "http://"@ + t
    } else {
        let pos = find_sub_from(t, "://"@, 0)->0;
        let after = t.skip(pos + 3);
        if after.len() > 0 && after[0] == ':' {
            t.subrange(0, pos) + "://localhost"@ + after
        } else {
            t
        }
    }
}

/// The default port of a scheme.
pub open spec fn default_port(scheme: Seq<char>) -> u16 {
    if scheme == "https"@ {
        443u16
    } else {
        80u16
    }
}

impl Url {
    /// Parse a URL, expanding the shorthands `normalize_spec` describes and
    /// then applying the defaults: a missing host becomes `localhost`, a
    /// missing port the scheme's default, an empty path `/`.
    pub fn parse(s: &str) -> (r: crate::Result<Url>)
        ensures
            match r {
                Ok(u) => url_parse_of(normalize_spec(s@)) matches Some(raw) && ({
                    &&& u.scheme@ == raw.scheme@
                    &&& u.host@ == (match raw.host {
                        Some(h) => h@,
                        None => "localhost"@,
                    })
                    &&& u.port == (match raw.port {
                        Some(p) => p,
                        None => default_port(raw.scheme@),
                    })
                    &&& u.path@ == (if raw.path@.len() == 0 {
                        "/"@
                    } else {
                        raw.path@
                    })
                    &&& u.query@ == (match raw.query {
                        Some(q) => q@,
                        None => Seq::<char>::empty(),
                    })
                    &&& u.fragment@ == (match raw.fragment {
                        Some(f) => f@,
                        None => Seq::<char>::empty(),
                    })
                }),
                Err(_) => url_parse_of(normalize_spec(s@)) is None,
            },
    {
        let sv = str_chars(s);
        let t = trim_chars(&sv);
        let sep = str_chars("://");
        let normalized: Vec<char> = if t.len() > 0 && t[0] == ':' {
            let mut n = str_chars("http://localhost");
            let mut i: usize = 0;
            let pre_len = n.len();
            while i < t.len()
                invariant
                    0 <= i <= t@.len(),
                    n@ == "http://localhost"@ + t@.subrange(0, i as int),
                decreases t@.len() - i,
            {
                n.push(t[i]);
                i = i + 1;
                proof {
                    assert(n@ =~= "http://localhost"@ + t@.subrange(0, i as int));
                }
            }
            proof {
                assert(t@.subrange(0, t@.len() as int) =~= t@);
            }
            n
        } else {
            proof {
                reveal_strlit("://");
                assert(sep@.len() == 3);
            }
            match crate::text::find_sub(&t, &sep) {
                None => {
                    let mut n = str_chars("http://");
                    let mut i: usize = 0;
                    while i < t.len()
                        invariant
                            0 <= i <= t@.len(),
                            n@ == "http://"@ + t@.subrange(0, i as int),
                        decreases t@.len() - i,
                    {
                        n.push(t[i]);
                        i = i + 1;
                        proof {
                            assert(n@ =~= "http://"@ + t@.subrange(0, i as int));
                        }
                    }
                    proof {
                        assert(t@.subrange(0, t@.len() as int) =~= t@);
                    }
                    n
                },
                Some(pos) => {
                    let after_start = pos + 3;
                    if after_start < t.len() && t[after_start] == ':' {
                        let mut n = crate::text::copy_range(&t, 0, pos);
                        let mut sfx = str_chars("://localhost");
                        let mut i: usize = 0;
                        while i < sfx.len()
                            invariant
                                0 <= i <= sfx@.len(),
                                sfx@ == "://localhost"@,
                                n@ == t@.subrange(0, pos as int) + sfx@.subrange(0, i as int),
                            decreases sfx@.len() - i,
                        {
                            n.push(sfx[i]);
                            i = i + 1;
                            proof {
                                assert(n@ =~= t@.subrange(0, pos as int) + sfx@.subrange(
                                    0,
                                    i as int,
                                ));
                            }
                        }
                        let mut k: usize = after_start;
                        proof {
                            assert(sfx@.subrange(0, sfx@.len() as int) =~= sfx@);
                        }
                        while k < t.len()
                            invariant
                                after_start <= k <= t@.len(),
                                after_start == pos + 3,
                                pos + 3 <= t@.len(),
                                n@ == t@.subrange(0, pos as int) + "://localhost"@ + t@.subrange(
                                    pos + 3,
                                    k as int,
                                ),
                            decreases t@.len() - k,
                        {
                            n.push(t[k]);
                            k = k + 1;
                            proof {
                                assert(n@ =~= t@.subrange(0, pos as int) + "://localhost"@
                                    + t@.subrange(pos + 3, k as int));
                            }
                        }
                        proof {
                            assert(t@.subrange(pos + 3, t@.len() as int) =~= t@.skip(pos + 3));
                        }
                        n
                    } else {
                        proof {
                            let after = t@.skip(pos + 3);
                            if after.len() > 0 {
                                assert(after[0] == t@[pos + 3]);
                            }
                        }
                        t
                    }
                },
            }
        };
        proof {
            assert(normalized@ == normalize_spec(s@));
        }
        let ns = chars_string(&normalized);
        match parse_url_raw(ns.as_str()) {
            Some(raw) => {
                let host: String = match raw.host {
                    Some(h) => h,
                    None => "localhost".to_owned(),
                };
                let https = {
                    let sc = str_chars(raw.scheme.as_str());
                    eq_str(&sc, "https")
                };
                let port: u16 = match raw.port {
                    Some(p) => p,
                    None => {
                        if https {
                            443
                        } else {
                            80
                        }
                    },
                };
                let path: String = if raw.path.as_str().is_empty() {
                    "/".to_owned()
                } else {
                    raw.path
                };
                let query: String = match raw.query {
                    Some(q) => q,
                    None => String::new(),
                };
                let fragment: String = match raw.fragment {
                    Some(f) => f,
                    None => String::new(),
                };
                Ok(Url { scheme: raw.scheme, host, port, path, query, fragment })
            },
            None => Err(RupostError::InvalidUrl("could not parse URL".to_owned())),
        }
    }

    /// The full text of the URL: scheme, host, explicit port, path, then
    /// query and fragment where present.
    pub fn to_url_string(&self) -> (r: String)
        ensures
            r@ == url_text(self),
    {
        let mut out = str_chars(self.scheme.as_str());
        let mut piece = str_chars("://");
        let mut i: usize = 0;
        out = append_chars(out, &piece);
        let host = str_chars(self.host.as_str());
        out = append_chars(out, &host);
        piece = str_chars(":");
        out = append_chars(out, &piece);
        let mut port_digits = crate::text::u64_dec(self.port as u64);
        out = append_chars(out, &port_digits);
        let path = str_chars(self.path.as_str());
        out = append_chars(out, &path);
        let query = str_chars(self.query.as_str());
        if query.len() > 0 {
            piece = str_chars("?");
            out = append_chars(out, &piece);
            out = append_chars(out, &query);
        }
        let frag = str_chars(self.fragment.as_str());
        if frag.len() > 0 {
            piece = str_chars("#");
            out = append_chars(out, &piece);
            out = append_chars(out, &frag);
        }
        proof {
            assert(out@ =~= url_text(self));
        }
        chars_string(&out)
    }
}

/// The rendered form of a URL value.
pub open spec fn url_text(u: &Url) -> Seq<char> {
    u.scheme@ + "://"@ + u.host@ + ":"@ + dec_of(u.port as int) + u.path@ + (if u.query@.len() > 0 {
        "?"@ + u.query@
    } else {
        Seq::<char>::empty()
    }) + (if u.fragment@.len() > 0 {
        "#"@ + u.fragment@
    } else {
        Seq::<char>::empty()
    })
}

/// Append `p` to `v`.
pub fn append_chars(v: Vec<char>, p: &Vec<char>) -> (r: Vec<char>)
    ensures
        r@ == v@ + p@,
{
    let mut v = v;
    let n = p.len();
    let ghost base = v@;
    let mut i: usize = 0;
    while i < n
        invariant
            0 <= i <= n == p@.len(),
            v@ == base + p@.subrange(0, i as int),
        decreases n - i,
    {
        v.push(p[i]);
        i = i + 1;
        proof {
            assert(v@ =~= base + p@.subrange(0, i as int));
        }
    }
    proof {
        assert(v@ =~= base + p@);
    }
    v
}

} // verus!
