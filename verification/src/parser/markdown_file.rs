//! Extracting request documents out of fenced `http`/`rest` code blocks in
//! Markdown, with the nearest heading as a default request name.
//!
//! The Markdown structure itself comes from pulldown-cmark behind a trusted
//! boundary that converts its events one for one; the block collection and
//! naming logic over those events is verified.

use vstd::prelude::*;

use crate::parser::http_file::parse_content_spec;
use crate::parser::http_file::HttpFileParser;
use crate::parser::types::MetaView;
use crate::parser::types::ParseErrorView;
use crate::parser::types::ParseResult;
use crate::parser::types::ParsedFile;
use crate::parser::types::ReqView;
use crate::text::lower_seq;

verus! {

/// The Markdown structure events this library reads.
pub enum MdEvent {
    HeadStart,
    HeadEnd,
    Text(String),
    CodeStart(String),
    CodeEnd,
    Other,
}

/// The events a Markdown text parses to; the result depends on the text
/// alone.
pub uninterp spec fn md_events_of(text: Seq<char>) -> Seq<MdEvent>;

/// Relies on pulldown_cmark::Parser::new and its Event stream: each event
/// is converted to this library's shape one for one, in order. Heading
/// starts and ends, text, fenced code-block starts (with their language
/// tag) and code-block ends are kept; every other event is opaque.
#[verifier::external_body]
fn md_events(content: &str) -> (r: Vec<MdEvent>)
    ensures
        r@ == md_events_of(content@),
{
    pulldown_cmark::Parser::new(content).map(|ev| match ev {
        pulldown_cmark::Event::Start(pulldown_cmark::Tag::Heading { .. }) => MdEvent::HeadStart,
        pulldown_cmark::Event::End(pulldown_cmark::TagEnd::Heading(_)) => MdEvent::HeadEnd,
        pulldown_cmark::Event::Start(
            pulldown_cmark::Tag::CodeBlock(pulldown_cmark::CodeBlockKind::Fenced(lang)),
        ) => MdEvent::CodeStart(lang.to_string()),
        pulldown_cmark::Event::End(pulldown_cmark::TagEnd::CodeBlock) => MdEvent::CodeEnd,
        pulldown_cmark::Event::Text(t) => MdEvent::Text(t.to_string()),
        _ => MdEvent::Other,
    }).collect()
}

/// The scanner's state: the nearest heading so far, whether a matching
/// code block or a heading is open, and the text collected for each.
pub struct MdState {
    pub cur_header: Option<Seq<char>>,
    pub in_code: bool,
    pub cur_code: Seq<char>,
    pub capturing: bool,
    pub header_text: Seq<char>,
}

/// The scanner's starting state.
pub open spec fn md_init() -> MdState {
    MdState {
        cur_header: None,
        in_code: false,
        cur_code: Seq::empty(),
        capturing: false,
        header_text: Seq::empty(),
    }
}

/// A fenced language tag this library extracts: `http` or `rest`, ASCII
/// case-insensitively.
pub open spec fn lang_matches(lang: Seq<char>) -> bool {
    lower_seq(lang) == "http"@ || lower_seq(lang) == "rest"@
}

/// One scanner step.
pub open spec fn md_step(st: MdState, e: MdEvent) -> (MdState, Option<(Seq<char>, Option<Seq<char>>)>) {
    match e {
        MdEvent::HeadStart => (
            (MdState { capturing: true, header_text: Seq::empty(), ..st }),
            None,
        ),
        MdEvent::HeadEnd => (
            (MdState {
                capturing: false,
                cur_header: if st.capturing && st.header_text.len() > 0 {
                    Some(st.header_text)
                } else {
                    st.cur_header
                },
                ..st
            }),
            None,
        ),
        MdEvent::Text(t) => {
            if st.capturing {
                ((MdState { header_text: st.header_text + t@, ..st }), None)
            } else if st.in_code {
                ((MdState { cur_code: st.cur_code + t@, ..st }), None)
            } else {
                (st, None)
            }
        },
        MdEvent::CodeStart(lang) => {
            if lang_matches(lang@) {
                ((MdState { in_code: true, cur_code: Seq::empty(), ..st }), None)
            } else {
                (st, None)
            }
        },
        MdEvent::CodeEnd => {
            if st.in_code {
                (
                    (MdState { in_code: false, cur_code: Seq::empty(), ..st }),
                    Some((st.cur_code, st.cur_header)),
                )
            } else {
                (st, None)
            }
        },
        MdEvent::Other => (st, None),
    }
}

/// Every matching code block of the event stream from `i` on, with the
/// heading that precedes it.
pub open spec fn md_scan(events: Seq<MdEvent>, i: int, st: MdState) -> Seq<
    (Seq<char>, Option<Seq<char>>),
>
    decreases events.len() - i,
{
    if i < 0 || i >= events.len() {
        Seq::empty()
    } else {
        let step = md_step(st, events[i]);
        match step.1 {
            Some(b) => seq![b] + md_scan(events, i + 1, step.0),
            None => md_scan(events, i + 1, step.0),
        }
    }
}

/// The extracted blocks of a Markdown text.
pub open spec fn md_blocks(content: Seq<char>) -> Seq<(Seq<char>, Option<Seq<char>>)> {
    md_scan(md_events_of(content), 0, md_init())
}

/// The view of one extracted block.
pub open spec fn block_view(b: (String, Option<String>)) -> (Seq<char>, Option<Seq<char>>) {
    (
        b.0@,
        match b.1 {
            Some(h) => Some(h@),
            None => None,
        },
    )
}

/// The view of an extracted block list.
pub open spec fn blocks_deep(s: Seq<(String, Option<String>)>) -> Seq<
    (Seq<char>, Option<Seq<char>>),
> {
    s.map_values(|b: (String, Option<String>)| block_view(b))
}

/// The requests with the block's heading filled in where no explicit name
/// was given.
pub open spec fn named_reqs(reqs: Seq<ReqView>, header: Option<Seq<char>>) -> Seq<ReqView> {
    reqs.map_values(
        |r: ReqView|
            if r.metadata.name is None {
                ReqView { metadata: (MetaView { name: header, ..r.metadata }), ..r }
            } else {
                r
            },
    )
}

/// All blocks parsed in order, each block's requests named after its
/// heading; any block's parse error aborts the whole document.
pub open spec fn md_fold(
    blocks: Seq<(Seq<char>, Option<Seq<char>>)>,
    i: int,
    acc: Seq<ReqView>,
) -> Result<Seq<ReqView>, ParseErrorView>
    decreases blocks.len() - i,
{
    if i < 0 || i >= blocks.len() {
        Ok(acc)
    } else {
        match parse_content_spec(blocks[i].0) {
            Err(e) => Err(e),
            Ok(reqs) => md_fold(blocks, i + 1, acc + named_reqs(reqs, blocks[i].1)),
        }
    }
}

/// A whole Markdown document's requests. A document without matching
/// blocks has none, which is not an error.
pub open spec fn md_parse_spec(content: Seq<char>) -> Result<Seq<ReqView>, ParseErrorView> {
    md_fold(md_blocks(content), 0, Seq::empty())
}

/// The Markdown document parser.
pub struct MarkdownFileParser;

impl MarkdownFileParser {
    /// Parse every fenced `http`/`rest` block of a Markdown text, as
    /// `md_parse_spec` says.
    pub fn parse_content(content: &str) -> (r: ParseResult<ParsedFile>)
        ensures
            match r {
                Ok(f) => md_parse_spec(content@) == Ok::<Seq<ReqView>, ParseErrorView>(
                    f@.requests,
                ) && f@.source_path is None,
                Err(e) => md_parse_spec(content@) == Err::<Seq<ReqView>, ParseErrorView>(e@),
            },
    {
        let events = md_events(content);
        let ghost evs = md_events_of(content@);
        let n = events.len();
        // Scan the events into blocks.
        let mut blocks: Vec<(String, Option<String>)> = Vec::new();
        let mut cur_header: Option<String> = None;
        let mut in_code = false;
        let mut cur_code: Vec<char> = Vec::new();
        let mut capturing = false;
        let mut header_text: Vec<char> = Vec::new();
        let mut i: usize = 0;
        proof {
            assert(blocks_deep(blocks@) =~= Seq::<(Seq<char>, Option<Seq<char>>)>::empty());
        }
        while i < n
            invariant
                0 <= i <= n == events@.len(),
                evs == events@,
                blocks_deep(blocks@) + md_scan(evs, i as int, (MdState {
                    cur_header: match cur_header {
                        Some(ref h) => Some(h@),
                        None => None,
                    },
                    in_code: in_code,
                    cur_code: cur_code@,
                    capturing: capturing,
                    header_text: header_text@,
                })) == md_blocks(content@),
            decreases n - i,
        {
            let ghost st = MdState {
                cur_header: match cur_header {
                    Some(ref h) => Some(h@),
                    None => None,
                },
                in_code: in_code,
                cur_code: cur_code@,
                capturing: capturing,
                header_text: header_text@,
            };
            let ghost stepped = md_step(st, evs[i as int]);
            match &events[i] {
                MdEvent::HeadStart => {
                    capturing = true;
                    header_text = Vec::new();
                    proof {
                        assert(header_text@ =~= Seq::<char>::empty());
                    }
                },
                MdEvent::HeadEnd => {
                    if capturing && header_text.len() > 0 {
                        cur_header = Some(crate::text::chars_string(&header_text));
                    }
                    capturing = false;
                },
                MdEvent::Text(t) => {
                    if capturing {
                        let tv = crate::text::str_chars(t.as_str());
                        header_text = crate::http::types::append_chars(header_text, &tv);
                    } else if in_code {
                        let tv = crate::text::str_chars(t.as_str());
                        cur_code = crate::http::types::append_chars(cur_code, &tv);
                    }
                },
                MdEvent::CodeStart(lang) => {
                    let lv = crate::text::str_chars(lang.as_str());
                    let ll = crate::text::to_lower_chars(&lv);
                    if crate::text::eq_str(&ll, "http") || crate::text::eq_str(&ll, "rest") {
                        in_code = true;
                        cur_code = Vec::new();
                        proof {
                            assert(cur_code@ =~= Seq::<char>::empty());
                        }
                    }
                },
                MdEvent::CodeEnd => {
                    if in_code {
                        let ghost pre_blocks = blocks@;
                        let content_str = crate::text::chars_string(&cur_code);
                        let header_copy: Option<String> = match &cur_header {
                            Some(h) => Some(h.clone()),
                            None => None,
                        };
                        proof {
                            assert(block_view((content_str, header_copy)) == stepped.1->0);
                        }
                        blocks.push((content_str, header_copy));
                        in_code = false;
                        cur_code = Vec::new();
                        proof {
                            assert(cur_code@ =~= Seq::<char>::empty());
                            assert(blocks_deep(blocks@) =~= blocks_deep(pre_blocks).push(
                                stepped.1->0,
                            ));
                            assert(blocks_deep(pre_blocks).push(stepped.1->0) + md_scan(
                                evs,
                                i + 1,
                                stepped.0,
                            ) =~= blocks_deep(pre_blocks) + (seq![stepped.1->0] + md_scan(
                                evs,
                                i + 1,
                                stepped.0,
                            )));
                        }
                    }
                },
                MdEvent::Other => {},
            }
            i = i + 1;
        }
        proof {
            assert(blocks_deep(blocks@) + Seq::<(Seq<char>, Option<Seq<char>>)>::empty()
                =~= blocks_deep(blocks@));
        }
        // Parse each block and name its requests.
        let ghost bv = blocks_deep(blocks@);
        let mut file = ParsedFile::new();
        let nb = blocks.len();
        let mut b: usize = 0;
        proof {
            assert(file@.requests + Seq::<ReqView>::empty() =~= file@.requests);
        }
        while b < nb
            invariant
                0 <= b <= nb == blocks@.len(),
                bv == blocks_deep(blocks@),
                bv == md_blocks(content@),
                file@.source_path is None,
                md_fold(bv, 0, Seq::empty()) == md_fold(bv, b as int, file@.requests),
            decreases nb - b,
        {
            proof {
                assert(bv[b as int] == block_view(blocks@[b as int]));
            }
            match HttpFileParser::parse_content(blocks[b].0.as_str()) {
                Err(e) => {
                    return Err(e);
                },
                Ok(block_parsed) => {
                    let ghost pre_reqs = file@.requests;
                    let ghost breqs = block_parsed@.requests;
                    let ghost named = named_reqs(breqs, bv[b as int].1);
                    let mut rest = block_parsed.requests;
                    let m = rest.len();
                    let mut j: usize = 0;
                    proof {
                        assert(named.len() == breqs.len());
                        assert(file@.requests + named.subrange(0, 0) =~= file@.requests);
                        assert(forall|t: int|
                            0 <= t < rest@.len() ==> (#[trigger] rest@[t])@ == breqs[t]);
                    }
                    while j < m
                        invariant
                            0 <= j <= m,
                            m == rest@.len() + j,
                            named.len() == m,
                            breqs.len() == m,
                            0 <= b < blocks@.len(),
                            bv == blocks_deep(blocks@),
                            bv[b as int] == block_view(blocks@[b as int]),
                            named == named_reqs(breqs, bv[b as int].1),
                            forall|t: int|
                                0 <= t < rest@.len() ==> (#[trigger] rest@[t])@ == breqs[j + t],
                            file@.requests == pre_reqs + named.subrange(0, j as int),
                            file@.source_path is None,
                        decreases m - j,
                    {
                        let mut first = rest.remove(0);
                        let ghost orig = breqs[j as int];
                        proof {
                            assert(first@ == orig);
                        }
                        let has_name = match &first.metadata.name {
                            Some(_) => true,
                            None => false,
                        };
                        if !has_name {
                            let replacement: Option<String> = match &blocks[b].1 {
                                Some(h) => Some(h.clone()),
                                None => None,
                            };
                            first.metadata.name = replacement;
                        }
                        proof {
                            assert(first@ =~~= named[j as int]);
                        }
                        file.add_request(first);
                        j = j + 1;
                        proof {
                            assert(file@.requests =~= pre_reqs + named.subrange(0, j as int));
                            assert(forall|t: int|
                                0 <= t < rest@.len() ==> (#[trigger] rest@[t])@ == breqs[j + t]);
                        }
                    }
                    proof {
                        assert(named.subrange(0, m as int) =~= named);
                        assert(file@.requests =~= pre_reqs + named);
                    }
                },
            }
            b = b + 1;
        }
        proof {
            assert(md_fold(bv, nb as int, file@.requests) == Ok::<Seq<ReqView>, ParseErrorView>(
                file@.requests,
            ));
        }
        Ok(file)
    }
}

/// Parse a Markdown document's request blocks from its text.
pub fn parse_markdown_content(content: &str) -> (r: ParseResult<ParsedFile>)
    ensures
        match r {
            Ok(f) => md_parse_spec(content@) == Ok::<Seq<ReqView>, ParseErrorView>(f@.requests),
            Err(e) => md_parse_spec(content@) == Err::<Seq<ReqView>, ParseErrorView>(e@),
        },
{
    MarkdownFileParser::parse_content(content)
}

} // verus!
