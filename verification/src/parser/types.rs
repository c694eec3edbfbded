//! The parsed form of a request document: requests, their metadata, and the
//! errors a parse can end in.

use vstd::prelude::*;

use crate::variable::capture::CaptureView;
use crate::variable::capture::VariableCapture;

verus! {

/// Metadata attached to one request by `@`-directives.
pub struct RequestMetadata {
    /// Display label (`@name`).
    pub name: Option<String>,
    /// Whether the request is skipped (`@skip`).
    pub skip: bool,
    /// Per-request timeout in milliseconds (`@timeout`).
    pub timeout: Option<u64>,
    /// Raw, unresolved assertion texts (`@assert`), in document order.
    pub assertions: Vec<String>,
    /// Capture directives (`@capture`), in document order.
    pub captures: Vec<VariableCapture>,
}

/// Spec-level shape of request metadata.
#[verifier::ext_equal]
pub struct MetaView {
    pub name: Option<Seq<char>>,
    pub skip: bool,
    pub timeout: Option<u64>,
    pub assertions: Seq<Seq<char>>,
    pub captures: Seq<CaptureView>,
}

impl View for RequestMetadata {
    type V = MetaView;

    open spec fn view(&self) -> MetaView {
        MetaView {
            name: match self.name {
                Some(ref n) => Some(n@),
                None => None,
            },
            skip: self.skip,
            timeout: self.timeout,
            assertions: self.assertions@.map_values(|a: String| a@),
            captures: self.captures@.map_values(|c: VariableCapture| c@),
        }
    }
}

/// The metadata a request starts with: nothing set, not skipped.
pub open spec fn empty_meta() -> MetaView {
    MetaView {
        name: None,
        skip: false,
        timeout: None,
        assertions: Seq::empty(),
        captures: Seq::empty(),
    }
}

impl RequestMetadata {
    /// Fresh metadata with nothing set.
    pub fn new() -> (r: Self)
        ensures
            r@ == empty_meta(),
    {
        let r = RequestMetadata {
            name: None,
            skip: false,
            timeout: None,
            assertions: Vec::new(),
            captures: Vec::new(),
        };
        proof {
            assert(r@.assertions =~= empty_meta().assertions);
            assert(r@.captures =~= empty_meta().captures);
        }
        r
    }
}

/// One parsed, unresolved request template plus its metadata.
pub struct ParsedRequest {
    /// The HTTP method, if the request line named one.
    pub method: Option<String>,
    /// The URL template; non-empty after a successful parse.
    pub url: String,
    /// Header templates, duplicates permitted, order preserved.
    pub headers: Vec<(String, String)>,
    /// Body template, if any.
    pub body: Option<String>,
    /// The request's metadata.
    pub metadata: RequestMetadata,
    /// The request's starting line in its document, for error reports.
    pub line_number: usize,
}

/// Spec-level shape of a parsed request.
#[verifier::ext_equal]
pub struct ReqView {
    pub method: Option<Seq<char>>,
    pub url: Seq<char>,
    pub headers: Seq<(Seq<char>, Seq<char>)>,
    pub body: Option<Seq<char>>,
    pub metadata: MetaView,
    pub line_number: int,
}

impl View for ParsedRequest {
    type V = ReqView;

    open spec fn view(&self) -> ReqView {
        ReqView {
            method: match self.method {
                Some(ref m) => Some(m@),
                None => None,
            },
            url: self.url@,
            headers: self.headers@.map_values(|h: (String, String)| (h.0@, h.1@)),
            body: match self.body {
                Some(ref b) => Some(b@),
                None => None,
            },
            metadata: self.metadata@,
            line_number: self.line_number as int,
        }
    }
}

impl ParsedRequest {
    /// An empty request anchored at the given line.
    pub fn new(line_number: usize) -> (r: Self)
        ensures
            r@.method is None,
            r@.url == Seq::<char>::empty(),
            r@.headers == Seq::<(Seq<char>, Seq<char>)>::empty(),
            r@.body is None,
            r@.metadata == empty_meta(),
            r@.line_number == line_number as int,
    {
        let r = ParsedRequest {
            method: None,
            url: String::new(),
            headers: Vec::new(),
            body: None,
            metadata: RequestMetadata::new(),
            line_number,
        };
        proof {
            assert(r@.headers =~= Seq::<(Seq<char>, Seq<char>)>::empty());
        }
        r
    }

    /// The method to dispatch with: the parsed one, or GET.
    pub fn method_or_default(&self) -> (r: &str)
        ensures
            r@ == match self@.method {
                Some(m) => m,
                None => "GET"@,
            },
    {
        match &self.method {
            Some(m) => m.as_str(),
            None => "GET",
        }
    }

    /// Whether the skip flag is set.
    pub fn should_skip(&self) -> (r: bool)
        ensures
            r == self@.metadata.skip,
    {
        self.metadata.skip
    }

    /// The display name, if one was set.
    pub fn name(&self) -> (r: Option<&str>)
        ensures
            match r {
                Some(n) => self@.metadata.name == Some(n@),
                None => self@.metadata.name is None,
            },
    {
        match &self.metadata.name {
            Some(n) => Some(n.as_str()),
            None => None,
        }
    }
}

/// A whole parsed document.
pub struct ParsedFile {
    /// Every parsed request, in document order.
    pub requests: Vec<ParsedRequest>,
    /// Where the document came from, if a file.
    pub source_path: Option<String>,
}

/// Spec-level shape of a parsed document.
#[verifier::ext_equal]
pub struct FileView {
    pub requests: Seq<ReqView>,
    pub source_path: Option<Seq<char>>,
}

impl View for ParsedFile {
    type V = FileView;

    open spec fn view(&self) -> FileView {
        FileView {
            requests: self.requests@.map_values(|r: ParsedRequest| r@),
            source_path: match self.source_path {
                Some(ref p) => Some(p@),
                None => None,
            },
        }
    }
}

impl ParsedFile {
    /// An empty document.
    pub fn new() -> (r: Self)
        ensures
            r@.requests == Seq::<ReqView>::empty(),
            r@.source_path is None,
    {
        let r = ParsedFile { requests: Vec::new(), source_path: None };
        proof {
            assert(r@.requests =~= Seq::<ReqView>::empty());
        }
        r
    }

    /// The same document, marked with its source path.
    pub fn with_source_path(self, path: String) -> (r: Self)
        ensures
            r@.requests == self@.requests,
            r@.source_path == Some(path@),
    {
        let r = ParsedFile { requests: self.requests, source_path: Some(path) };
        r
    }

    /// Append one request.
    pub fn add_request(&mut self, request: ParsedRequest)
        ensures
            final(self)@.requests == old(self)@.requests.push(request@),
            final(self)@.source_path == old(self)@.source_path,
    {
        self.requests.push(request);
        proof {
            assert(self@.requests =~= old(self)@.requests.push(request@));
        }
    }

    /// The requests not marked to be skipped, in order.
    pub fn active_requests(&self) -> (r: Vec<&ParsedRequest>)
        ensures
            r@.map_values(|p: &ParsedRequest| p@) == self@.requests.filter(
                |rv: ReqView| !rv.metadata.skip,
            ),
    {
        let n = self.requests.len();
        let mut out: Vec<&ParsedRequest> = Vec::new();
        proof {
            reveal(Seq::filter);
            assert(self@.requests.subrange(0, 0) =~= Seq::<ReqView>::empty());
            assert(out@.map_values(|p: &ParsedRequest| p@) =~= self@.requests.subrange(
                0,
                0,
            ).filter(|rv: ReqView| !rv.metadata.skip));
        }
        let mut i: usize = 0;
        while i < n
            invariant
                0 <= i <= n == self.requests@.len(),
                out@.map_values(|p: &ParsedRequest| p@) == self@.requests.subrange(
                    0,
                    i as int,
                ).filter(|rv: ReqView| !rv.metadata.skip),
            decreases n - i,
        {
            let ghost pre = self@.requests.subrange(0, i as int);
            if !self.requests[i].should_skip() {
                out.push(&self.requests[i]);
            }
            i = i + 1;
            proof {
                reveal(Seq::filter);
                let cur = self@.requests.subrange(0, i as int);
                assert(cur.drop_last() =~= pre);
                assert(cur.last() == self@.requests[i - 1]);
                if !self@.requests[i - 1].metadata.skip {
                    assert(out@.map_values(|p: &ParsedRequest| p@) =~= pre.filter(
                        |rv: ReqView| !rv.metadata.skip,
                    ).push(self@.requests[i - 1]));
                }
            }
        }
        proof {
            assert(self@.requests.subrange(0, n as int) =~= self@.requests);
        }
        out
    }
}

/// Why a parse failed.
#[derive(Debug)]
pub enum ParseError {
    /// A malformed request line.
    InvalidFormat { line: usize, message: String },
    /// A request without a URL.
    MissingUrl { line: usize },
    /// A malformed `@`-directive.
    InvalidMetadata { line: usize, message: String },
    /// A method outside the recognised set.
    InvalidMethod { method: String, line: usize },
    /// A malformed header line.
    InvalidHeader { line: usize },
    /// The document could not be read.
    Io(String),
    /// The document holds no request.
    NoRequests,
}

/// Spec-level shape of a parse error: its kind and position. The attached
/// message texts are presentation and not part of the contract.
pub enum ParseErrorView {
    InvalidFormat(int),
    MissingUrl(int),
    InvalidMetadata(int),
    InvalidMethod(Seq<char>, int),
    InvalidHeader(int),
    Io,
    NoRequests,
}

impl View for ParseError {
    type V = ParseErrorView;

    open spec fn view(&self) -> ParseErrorView {
        match self {
            ParseError::InvalidFormat { line, .. } => ParseErrorView::InvalidFormat(*line as int),
            ParseError::MissingUrl { line } => ParseErrorView::MissingUrl(*line as int),
            ParseError::InvalidMetadata { line, .. } => ParseErrorView::InvalidMetadata(
                *line as int,
            ),
            ParseError::InvalidMethod { method, line } => ParseErrorView::InvalidMethod(
                method@,
                *line as int,
            ),
            ParseError::InvalidHeader { line } => ParseErrorView::InvalidHeader(*line as int),
            ParseError::Io(_) => ParseErrorView::Io,
            ParseError::NoRequests => ParseErrorView::NoRequests,
        }
    }
}

impl ParseError {
    /// A short description of the error.
    pub fn message(&self) -> (r: String)
    {
        match self {
            ParseError::InvalidFormat { message, .. } => message.clone(),
            ParseError::MissingUrl { .. } => "missing URL".to_owned(),
            ParseError::InvalidMetadata { message, .. } => message.clone(),
            ParseError::InvalidMethod { method, .. } => method.clone(),
            ParseError::InvalidHeader { .. } => "invalid header".to_owned(),
            ParseError::Io(m) => m.clone(),
            ParseError::NoRequests => "no requests found".to_owned(),
        }
    }
}

pub type ParseResult<T> = core::result::Result<T, ParseError>;

/// One recognised `@`-directive.
pub enum Metadata {
    Name(String),
    Skip(bool),
    Timeout(u64),
    Assert(String),
    Capture { var_name: String, source: String },
}

/// Spec-level shape of a directive.
pub enum MetaDirectiveView {
    Name(Seq<char>),
    Skip(bool),
    Timeout(u64),
    Assert(Seq<char>),
    Capture(Seq<char>, Seq<char>),
}

impl View for Metadata {
    type V = MetaDirectiveView;

    open spec fn view(&self) -> MetaDirectiveView {
        match self {
            Metadata::Name(n) => MetaDirectiveView::Name(n@),
            Metadata::Skip(b) => MetaDirectiveView::Skip(*b),
            Metadata::Timeout(t) => MetaDirectiveView::Timeout(*t),
            Metadata::Assert(a) => MetaDirectiveView::Assert(a@),
            Metadata::Capture { var_name, source } => MetaDirectiveView::Capture(
                var_name@,
                source@,
            ),
        }
    }
}

} // verus!
