//! The `.http` document grammar.
//!
//! A document is split on `###` delimiter lines into blocks; each non-empty
//! block yields at most one request: leading blank, comment and `@`-directive
//! lines, then the request line, then headers up to the first blank line,
//! then the body.

use vstd::prelude::*;

use crate::parser::metadata::apply_meta_spec;
use crate::parser::metadata::meta_line_spec;
use crate::parser::types::empty_meta;
use crate::parser::types::MetaView;
use crate::parser::types::ParseError;
use crate::parser::types::ParseErrorView;
use crate::parser::types::ParseResult;
use crate::parser::types::ParsedFile;
use crate::parser::types::ParsedRequest;
use crate::parser::types::ReqView;
use crate::text::deep_chars;
use crate::text::find_char_from;
use crate::text::split_lines;
use crate::text::split_ws;
use crate::text::trim_spec;
use crate::text::upper_seq;

verus! {

/// A delimiter line: its trimmed form starts with `###`.
pub open spec fn is_sep_line(l: Seq<char>) -> bool {
    let t = trim_spec(l);
    t.len() >= 3 && t[0] == '#' && t[1] == '#' && t[2] == '#'
}

/// A comment: the trimmed line starts with `#` or `//`.
pub open spec fn is_comment_t(t: Seq<char>) -> bool {
    (t.len() >= 1 && t[0] == '#') || (t.len() >= 2 && t[0] == '/' && t[1] == '/')
}

/// A directive line: the trimmed line starts with `@`.
pub open spec fn is_meta_t(t: Seq<char>) -> bool {
    t.len() >= 1 && t[0] == '@'
}

/// A block with at least one non-blank line.
pub open spec fn block_nonempty(b: Seq<Seq<char>>) -> bool {
    exists|k: int| 0 <= k < b.len() && trim_spec(#[trigger] b[k]).len() > 0
}

/// The `###`-delimited blocks of the line list from index `i` on, each with
/// its one-based starting line number; blocks with only blank lines are
/// dropped. `cur` is the block being accumulated and `cur_start` its
/// starting line.
pub open spec fn split_blocks_from(
    lines: Seq<Seq<char>>,
    i: int,
    cur: Seq<Seq<char>>,
    cur_start: int,
) -> Seq<(Seq<Seq<char>>, int)>
    decreases lines.len() - i,
{
    if i < 0 || i >= lines.len() {
        if block_nonempty(cur) {
            seq![(cur, cur_start)]
        } else {
            Seq::empty()
        }
    } else if is_sep_line(lines[i]) {
        let rest = split_blocks_from(lines, i + 1, Seq::empty(), i + 2);
        if block_nonempty(cur) {
            seq![(cur, cur_start)] + rest
        } else {
            rest
        }
    } else {
        split_blocks_from(lines, i + 1, cur.push(lines[i]), cur_start)
    }
}

/// The non-empty `###`-delimited blocks of a document's lines.
pub open spec fn split_blocks(lines: Seq<Seq<char>>) -> Seq<(Seq<Seq<char>>, int)> {
    split_blocks_from(lines, 0, Seq::empty(), 1)
}

/// A recognised method name.
pub open spec fn method_ok(m: Seq<char>) -> bool {
    m == "GET"@ || m == "POST"@ || m == "PUT"@ || m == "DELETE"@ || m == "PATCH"@ || m == "HEAD"@
        || m == "OPTIONS"@
}

/// The request line: one token is a URL alone; two tokens are a method
/// (upper-cased, and it must be a known one) and a URL; anything else is
/// malformed.
pub open spec fn request_line_spec(t: Seq<char>, line_no: int) -> Result<
    (Option<Seq<char>>, Seq<char>),
    ParseErrorView,
> {
    let parts = split_ws(t);
    if parts.len() == 1 {
        Ok((None, parts[0]))
    } else if parts.len() == 2 {
        let m = upper_seq(parts[0]);
        if method_ok(m) {
            Ok((Some(m), parts[1]))
        } else {
            Err(ParseErrorView::InvalidMethod(m, line_no))
        }
    } else {
        Err(ParseErrorView::InvalidFormat(line_no))
    }
}

/// A header line: split at the first `:`, both sides trimmed; a line
/// without a colon, or with an empty name, yields nothing.
pub open spec fn header_line_spec(t: Seq<char>) -> Option<(Seq<char>, Seq<char>)> {
    match find_char_from(t, ':', 0) {
        Some(j) => {
            let k = trim_spec(t.subrange(0, j));
            let v = trim_spec(t.subrange(j + 1, t.len() as int));
            if k.len() > 0 {
                Some((k, v))
            } else {
                None
            }
        },
        None => None,
    }
}

/// The first blank (all-whitespace) line at or after `i`, or the block's
/// length.
pub open spec fn headers_end(bl: Seq<Seq<char>>, i: int) -> int
    decreases bl.len() - i,
{
    if i < 0 || i >= bl.len() {
        bl.len() as int
    } else if trim_spec(bl[i]).len() == 0 {
        i
    } else {
        headers_end(bl, i + 1)
    }
}

/// The headers of lines `i` up to `end`: comments skipped, each remaining
/// line read by `header_line_spec`.
pub open spec fn collect_headers(bl: Seq<Seq<char>>, i: int, end: int) -> Seq<
    (Seq<char>, Seq<char>),
>
    decreases end - i,
{
    if i < 0 || i >= end || i >= bl.len() {
        Seq::empty()
    } else {
        let t = trim_spec(bl[i]);
        let rest = collect_headers(bl, i + 1, end);
        if is_comment_t(t) {
            rest
        } else {
            match header_line_spec(t) {
                Some(h) => seq![h] + rest,
                None => rest,
            }
        }
    }
}

/// Lines `i` up to `k`, joined with a newline between each two.
pub open spec fn joined(bl: Seq<Seq<char>>, i: int, k: int) -> Seq<char>
    decreases k - i,
{
    if i < 0 || i >= k || i >= bl.len() {
        Seq::empty()
    } else if i == k - 1 || i == bl.len() - 1 {
        bl[i]
    } else {
        bl[i] + seq!['\n'] + joined(bl, i + 1, k)
    }
}

/// The body: every line from `i` on, joined and trimmed as a whole; an
/// empty remainder is no body.
pub open spec fn body_spec(bl: Seq<Seq<char>>, i: int) -> Option<Seq<char>> {
    if i >= bl.len() {
        None
    } else {
        let t = trim_spec(joined(bl, i, bl.len() as int));
        if t.len() > 0 {
            Some(t)
        } else {
            None
        }
    }
}

/// The metadata scan over a block's leading lines: blank and comment lines
/// are skipped, directives are applied in order, and the scan stops at the
/// first substantive line, whose index it returns beside the metadata.
pub open spec fn meta_scan(bl: Seq<Seq<char>>, i: int, start: int, m: MetaView) -> Result<
    (MetaView, int),
    ParseErrorView,
>
    decreases bl.len() - i,
{
    if i < 0 || i >= bl.len() {
        Ok((m, bl.len() as int))
    } else {
        let t = trim_spec(bl[i]);
        if t.len() == 0 || is_comment_t(t) {
            meta_scan(bl, i + 1, start, m)
        } else if is_meta_t(t) {
            match meta_line_spec(t) {
                Ok(Some(d)) => meta_scan(bl, i + 1, start, apply_meta_spec(d, m)),
                Ok(None) => meta_scan(bl, i + 1, start, m),
                Err(_) => Err(ParseErrorView::InvalidMetadata(start + i)),
            }
        } else {
            Ok((m, i))
        }
    }
}

/// One block: metadata, then the request line, then headers up to the first
/// blank line, then the body. A block with only blank, comment and
/// directive lines yields no request.
pub open spec fn parse_block_spec(bl: Seq<Seq<char>>, start: int) -> Result<
    Option<ReqView>,
    ParseErrorView,
> {
    if bl.len() == 0 {
        Ok(None)
    } else {
        match meta_scan(bl, 0, start, empty_meta()) {
            Err(e) => Err(e),
            Ok((m, i)) => {
                if i >= bl.len() {
                    Ok(None)
                } else {
                    match request_line_spec(trim_spec(bl[i]), start + i) {
                        Err(e) => Err(e),
                        Ok((method, url)) => {
                            let hend = headers_end(bl, i + 1);
                            Ok(
                                Some(
                                    (ReqView {
                                        method: method,
                                        url: url,
                                        headers: collect_headers(bl, i + 1, hend),
                                        body: body_spec(bl, hend + 1),
                                        metadata: m,
                                        line_number: start,
                                    }),
                                ),
                            )
                        },
                    }
                }
            },
        }
    }
}

/// All blocks in order; each contributes its request, if it has one.
pub open spec fn parse_blocks_from(
    blocks: Seq<(Seq<Seq<char>>, int)>,
    i: int,
    acc: Seq<ReqView>,
) -> Result<Seq<ReqView>, ParseErrorView>
    decreases blocks.len() - i,
{
    if i < 0 || i >= blocks.len() {
        Ok(acc)
    } else {
        match parse_block_spec(blocks[i].0, blocks[i].1) {
            Err(e) => Err(e),
            Ok(Some(rv)) => parse_blocks_from(blocks, i + 1, acc.push(rv)),
            Ok(None) => parse_blocks_from(blocks, i + 1, acc),
        }
    }
}

/// The whole document: split into lines and blocks, parse each block, and
/// demand at least one request.
pub open spec fn parse_content_spec(content: Seq<char>) -> Result<Seq<ReqView>, ParseErrorView> {
    let blocks = split_blocks(split_lines(content));
    if blocks.len() == 0 {
        Err(ParseErrorView::NoRequests)
    } else {
        match parse_blocks_from(blocks, 0, Seq::empty()) {
            Err(e) => Err(e),
            Ok(reqs) => {
                if reqs.len() == 0 {
                    Err(ParseErrorView::NoRequests)
                } else {
                    Ok(reqs)
                }
            },
        }
    }
}

/// The view of an executable block list.
pub open spec fn blocks_view(bs: Seq<(Vec<Vec<char>>, usize)>) -> Seq<(Seq<Seq<char>>, int)> {
    bs.map_values(|b: (Vec<Vec<char>>, usize)| (deep_chars(b.0@), b.1 as int))
}

proof fn lemma_block_nonempty_push(b: Seq<Seq<char>>, l: Seq<char>)
    ensures
        block_nonempty(b.push(l)) == (block_nonempty(b) || trim_spec(l).len() > 0),
{
    let bp = b.push(l);
    if block_nonempty(b) {
        let k = choose|k: int| 0 <= k < b.len() && trim_spec(#[trigger] b[k]).len() > 0;
        assert(bp[k] == b[k]);
        assert(block_nonempty(bp));
    } else if trim_spec(l).len() > 0 {
        assert(bp[b.len() as int] == l);
        assert(block_nonempty(bp));
    } else {
        if block_nonempty(bp) {
            let k = choose|k: int| 0 <= k < bp.len() && trim_spec(#[trigger] bp[k]).len() > 0;
            if k < b.len() {
                assert(bp[k] == b[k]);
                assert(block_nonempty(b));
            } else {
                assert(bp[k] == l);
            }
            assert(false);
        }
    }
}

/// Split the lines into `###`-delimited blocks, as `split_blocks` says.
/// Each returned block's lines are a contiguous run of the input lines
/// beginning at its one-based starting line number.
fn split_blocks_exec(lines: &Vec<Vec<char>>) -> (r: Vec<(Vec<Vec<char>>, usize)>)
    requires
        lines@.len() + 2 <= usize::MAX,
    ensures
        blocks_view(r@) == split_blocks(deep_chars(lines@)),
        forall|k: int|
            0 <= k < r@.len() ==> 1 <= (#[trigger] r@[k]).1 && r@[k].1 - 1 + r@[k].0@.len()
                <= lines@.len(),
{
    let ghost ls = deep_chars(lines@);
    let n = lines.len();
    let mut out: Vec<(Vec<Vec<char>>, usize)> = Vec::new();
    let mut cur: Vec<Vec<char>> = Vec::new();
    let mut cur_nonempty = false;
    let mut cur_start: usize = 1;
    let mut i: usize = 0;
    proof {
        assert(deep_chars(cur@) =~= Seq::<Seq<char>>::empty());
        assert(blocks_view(out@) =~= Seq::<(Seq<Seq<char>>, int)>::empty());
    }
    while i < n
        invariant
            0 <= i <= n == lines@.len(),
            n + 2 <= usize::MAX,
            ls == deep_chars(lines@),
            cur_nonempty == block_nonempty(deep_chars(cur@)),
            1 <= cur_start as int,
            cur_start as int - 1 + cur@.len() == i as int,
            blocks_view(out@) + split_blocks_from(ls, i as int, deep_chars(cur@), cur_start as int)
                == split_blocks(ls),
            forall|k: int|
                0 <= k < out@.len() ==> 1 <= (#[trigger] out@[k]).1 && out@[k].1 - 1
                    + out@[k].0@.len() <= lines@.len(),
        decreases n - i,
    {
        let ghost old_out = out@;
        let ghost old_cur = deep_chars(cur@);
        let ghost old_start = cur_start as int;
        let t = crate::text::trim_chars(&lines[i]);
        let is_sep = t.len() >= 3 && t[0] == '#' && t[1] == '#' && t[2] == '#';
        proof {
            assert(ls[i as int] == lines@[i as int]@);
            assert(is_sep == is_sep_line(ls[i as int]));
        }
        if is_sep {
            if cur_nonempty {
                out.push((cur, cur_start));
                proof {
                    assert(blocks_view(out@) =~= blocks_view(old_out).push(
                        (old_cur, old_start),
                    ));
                }
            }
            cur = Vec::new();
            cur_nonempty = false;
            cur_start = i + 2;
            i = i + 1;
            proof {
                assert(deep_chars(cur@) =~= Seq::<Seq<char>>::empty());
                let rest = split_blocks_from(ls, i as int, deep_chars(cur@), cur_start as int);
                if block_nonempty(old_cur) {
                    assert(blocks_view(out@) + rest =~= blocks_view(old_out) + (seq![
                        (old_cur, old_start),
                    ] + rest));
                }
            }
        } else {
            let line_copy = crate::text::copy_range(&lines[i], 0, lines[i].len());
            proof {
                assert(line_copy@ == lines@[i as int]@);
            }
            let nonempty_line = t.len() > 0;
            cur.push(line_copy);
            cur_nonempty = cur_nonempty || nonempty_line;
            i = i + 1;
            proof {
                assert(deep_chars(cur@) =~= old_cur.push(ls[i - 1]));
                lemma_block_nonempty_push(old_cur, ls[i - 1]);
            }
        }
    }
    proof {
        assert(split_blocks_from(ls, n as int, deep_chars(cur@), cur_start as int) == (
        if block_nonempty(deep_chars(cur@)) {
            seq![(deep_chars(cur@), cur_start as int)]
        } else {
            Seq::<(Seq<Seq<char>>, int)>::empty()
        }));
    }
    if cur_nonempty {
        let ghost old_out = out@;
        let ghost old_cur = deep_chars(cur@);
        let ghost old_start = cur_start as int;
        out.push((cur, cur_start));
        proof {
            assert(blocks_view(out@) =~= blocks_view(old_out).push((old_cur, old_start)));
            assert(blocks_view(old_out).push((old_cur, old_start)) =~= blocks_view(old_out)
                + seq![(old_cur, old_start)]);
        }
    } else {
        proof {
            assert(blocks_view(out@) + Seq::<(Seq<Seq<char>>, int)>::empty() =~= blocks_view(
                out@,
            ));
        }
    }
    out
}

/// Executable twin of `is_comment_t` on a trimmed line.
fn is_comment_chars(t: &Vec<char>) -> (r: bool)
    ensures
        r == is_comment_t(t@),
{
    (t.len() >= 1 && t[0] == '#') || (t.len() >= 2 && t[0] == '/' && t[1] == '/')
}

/// Executable twin of `method_ok`.
fn method_ok_exec(m: &Vec<char>) -> (r: bool)
    ensures
        r == method_ok(m@),
{
    crate::text::eq_str(m, "GET") || crate::text::eq_str(m, "POST") || crate::text::eq_str(
        m,
        "PUT",
    ) || crate::text::eq_str(m, "DELETE") || crate::text::eq_str(m, "PATCH")
        || crate::text::eq_str(m, "HEAD") || crate::text::eq_str(m, "OPTIONS")
}

/// Parse one trimmed header line, as `header_line_spec` says.
fn parse_header_chars(t: &Vec<char>) -> (r: Option<(String, String)>)
    ensures
        match r {
            Some(h) => header_line_spec(t@) == Some((h.0@, h.1@)),
            None => header_line_spec(t@) is None,
        },
{
    let n = t.len();
    match crate::text::find_char_at(t, ':', 0) {
        Some(j) => {
            let key = crate::text::trim_chars(&crate::text::copy_range(t, 0, j));
            let val = crate::text::trim_chars(&crate::text::copy_range(t, j + 1, n));
            if key.len() > 0 {
                Some((crate::text::chars_string(&key), crate::text::chars_string(&val)))
            } else {
                None
            }
        },
        None => None,
    }
}

proof fn lemma_collect_headers_snoc(bl: Seq<Seq<char>>, i: int, j: int)
    requires
        0 <= i <= j < bl.len(),
    ensures
        collect_headers(bl, i, j + 1) == collect_headers(bl, i, j) + ({
            let t = trim_spec(bl[j]);
            if is_comment_t(t) {
                Seq::<(Seq<char>, Seq<char>)>::empty()
            } else {
                match header_line_spec(t) {
                    Some(h) => seq![h],
                    None => Seq::<(Seq<char>, Seq<char>)>::empty(),
                }
            }
        }),
    decreases j - i,
{
    let tail = ({
        let t = trim_spec(bl[j]);
        if is_comment_t(t) {
            Seq::<(Seq<char>, Seq<char>)>::empty()
        } else {
            match header_line_spec(t) {
                Some(h) => seq![h],
                None => Seq::<(Seq<char>, Seq<char>)>::empty(),
            }
        }
    });
    if i == j {
        assert(collect_headers(bl, i, i) =~= Seq::<(Seq<char>, Seq<char>)>::empty());
        assert(collect_headers(bl, j + 1, j + 1) =~= Seq::<(Seq<char>, Seq<char>)>::empty());
        assert(collect_headers(bl, i, j + 1) =~= Seq::<(Seq<char>, Seq<char>)>::empty() + tail);
        assert(collect_headers(bl, i, j + 1) =~= collect_headers(bl, i, j) + tail);
    } else {
        lemma_collect_headers_snoc(bl, i + 1, j);
        let t0 = trim_spec(bl[i]);
        if is_comment_t(t0) {
            assert(collect_headers(bl, i, j + 1) =~= collect_headers(bl, i, j) + tail);
        } else {
            match header_line_spec(t0) {
                Some(h) => {
                    assert(collect_headers(bl, i, j + 1) =~= seq![h] + collect_headers(
                        bl,
                        i + 1,
                        j + 1,
                    ));
                    assert(seq![h] + (collect_headers(bl, i + 1, j) + tail) =~= (seq![h]
                        + collect_headers(bl, i + 1, j)) + tail);
                    assert(collect_headers(bl, i, j + 1) =~= collect_headers(bl, i, j) + tail);
                },
                None => {
                    assert(collect_headers(bl, i, j + 1) =~= collect_headers(bl, i, j) + tail);
                },
            }
        }
    }
}

proof fn lemma_joined_snoc(bl: Seq<Seq<char>>, i: int, k: int)
    requires
        0 <= i <= k < bl.len(),
    ensures
        joined(bl, i, k + 1) == if k == i {
            bl[k]
        } else {
            joined(bl, i, k) + seq!['\n'] + bl[k]
        },
    decreases k - i,
{
    if i == k {
    } else {
        lemma_joined_snoc(bl, i + 1, k);
        if i + 1 == k {
            assert(joined(bl, i, k) == bl[i]);
            assert(joined(bl, i, k + 1) =~= bl[i] + seq!['\n'] + bl[k]);
        } else {
            assert(joined(bl, i, k + 1) =~= (bl[i] + seq!['\n'] + joined(bl, i + 1, k)) + seq![
                '\n',
            ] + bl[k]);
            assert(joined(bl, i, k) == bl[i] + seq!['\n'] + joined(bl, i + 1, k));
        }
    }
}

/// The `.http` document parser.
pub struct HttpFileParser;

impl HttpFileParser {
    /// Parse a duration directive argument, attaching the given line number
    /// to any error.
    pub fn parse_duration(s: &str, line_number: usize) -> (r: ParseResult<u64>)
        ensures
            match r {
                Ok(ms) => crate::parser::metadata::duration_ms_spec(s@) == Some(ms as int),
                Err(e) => crate::parser::metadata::duration_ms_spec(s@) is None && e@
                    == ParseErrorView::InvalidMetadata(line_number as int),
            },
    {
        let v = crate::text::str_chars(s);
        match crate::parser::metadata::duration_ms(&v) {
            Some(ms) => Ok(ms),
            None => Err(
                ParseError::InvalidMetadata {
                    line: line_number,
                    message: "invalid duration: expected an integer with an 'ms', 's' or 'm' suffix".to_owned(),
                },
            ),
        }
    }

    /// Parse one block into at most one request, as `parse_block_spec` says.
    fn parse_request_block(block: &Vec<Vec<char>>, start_line: usize) -> (r: ParseResult<
        Option<ParsedRequest>,
    >)
        requires
            start_line as int + block@.len() + 2 <= usize::MAX,
        ensures
            match r {
                Ok(Some(req)) => parse_block_spec(deep_chars(block@), start_line as int)
                    == Ok::<Option<ReqView>, ParseErrorView>(Some(req@)),
                Ok(None) => parse_block_spec(deep_chars(block@), start_line as int)
                    == Ok::<Option<ReqView>, ParseErrorView>(None),
                Err(e) => parse_block_spec(deep_chars(block@), start_line as int) == Err::<
                    Option<ReqView>,
                    ParseErrorView,
                >(e@),
            },
    {
        let ghost bl = deep_chars(block@);
        let ghost st = start_line as int;
        let n = block.len();
        if n == 0 {
            return Ok(None);
        }
        // Metadata, blank and comment lines before the request line.
        let mut meta = crate::parser::types::RequestMetadata::new();
        let mut i: usize = 0;
        let mut found = false;
        while i < n && !found
            invariant
                0 <= i <= n == block@.len(),
                bl == deep_chars(block@),
                st == start_line as int,
                st + n + 2 <= usize::MAX,
                meta_scan(bl, 0, st, empty_meta()) == (if found {
                    Ok::<(MetaView, int), ParseErrorView>((meta@, i as int))
                } else {
                    meta_scan(bl, i as int, st, meta@)
                }),
                found ==> i < n,
            decreases n - i, (if found { 0int } else { 1int }),
        {
            let t = crate::text::trim_chars(&block[i]);
            proof {
                assert(bl[i as int] == block@[i as int]@);
            }
            if t.len() == 0 || is_comment_chars(&t) {
                i = i + 1;
            } else if t[0] == '@' {
                let ts = crate::text::chars_string(&t);
                match crate::parser::metadata::parse_meta_line(ts.as_str(), start_line + i) {
                    Ok(Some(md)) => {
                        crate::parser::metadata::apply_metadata(&md, &mut meta);
                        i = i + 1;
                    },
                    Ok(None) => {
                        i = i + 1;
                    },
                    Err(e) => {
                        return Err(e);
                    },
                }
            } else {
                found = true;
            }
        }
        if !found {
            proof {
                assert(meta_scan(bl, 0, st, empty_meta()) == Ok::<(MetaView, int), ParseErrorView>(
                    (meta@, n as int),
                ));
            }
            return Ok(None);
        }
        // The request line.
        let t = crate::text::trim_chars(&block[i]);
        proof {
            assert(bl[i as int] == block@[i as int]@);
        }
        let parts = crate::text::split_ws_chars(&t);
        let method: Option<String>;
        let url: String;
        if parts.len() == 1 {
            proof {
                assert(deep_chars(parts@)[0] == parts@[0]@);
            }
            method = None;
            url = crate::text::chars_string(&parts[0]);
        } else if parts.len() == 2 {
            let m = crate::text::to_upper_chars(&parts[0]);
            proof {
                assert(deep_chars(parts@)[0] == parts@[0]@);
                assert(deep_chars(parts@)[1] == parts@[1]@);
            }
            if method_ok_exec(&m) {
                method = Some(crate::text::chars_string(&m));
                url = crate::text::chars_string(&parts[1]);
            } else {
                return Err(
                    ParseError::InvalidMethod {
                        method: crate::text::chars_string(&m),
                        line: start_line + i,
                    },
                );
            }
        } else {
            return Err(
                ParseError::InvalidFormat {
                    line: start_line + i,
                    message: if parts.len() == 0 {
                        "empty request line".to_owned()
                    } else {
                        "too many parts in request line".to_owned()
                    },
                },
            );
        }
        // Headers up to the first blank line.
        let mut headers: Vec<(String, String)> = Vec::new();
        let mut j: usize = i + 1;
        let mut blank = false;
        proof {
            assert(headers@.map_values(|h: (String, String)| (h.0@, h.1@)) =~= collect_headers(
                bl,
                i + 1,
                j as int,
            ));
        }
        while j < n && !blank
            invariant
                0 <= i < n == block@.len(),
                i + 1 <= j <= n,
                bl == deep_chars(block@),
                headers@.map_values(|h: (String, String)| (h.0@, h.1@)) == collect_headers(
                    bl,
                    i + 1,
                    j as int,
                ),
                headers_end(bl, i + 1) == (if blank {
                    j as int
                } else {
                    headers_end(bl, j as int)
                }),
                blank ==> j < n,
            decreases n - j, (if blank { 0int } else { 1int }),
        {
            let t2 = crate::text::trim_chars(&block[j]);
            proof {
                assert(bl[j as int] == block@[j as int]@);
            }
            if t2.len() == 0 {
                blank = true;
            } else {
                let ghost old_headers = headers@;
                if !is_comment_chars(&t2) {
                    match parse_header_chars(&t2) {
                        Some(h) => {
                            headers.push(h);
                        },
                        None => {},
                    }
                }
                proof {
                    lemma_collect_headers_snoc(bl, i + 1, j as int);
                    assert(headers@.map_values(|h: (String, String)| (h.0@, h.1@))
                        =~= collect_headers(bl, i + 1, j + 1));
                }
                j = j + 1;
            }
        }
        let hend = j;
        proof {
            assert(headers_end(bl, i + 1) == hend as int);
            assert(collect_headers(bl, i + 1, headers_end(bl, i + 1)) == headers@.map_values(
                |h: (String, String)| (h.0@, h.1@),
            ));
        }
        // The body: everything after the blank line, joined and trimmed.
        let mut body: Option<String> = None;
        if blank && hend + 1 < n {
            let b0 = hend + 1;
            let mut buf: Vec<char> = Vec::new();
            let mut k: usize = b0;
            proof {
                assert(bl[b0 as int] == block@[b0 as int]@);
            }
            while k < n
                invariant
                    0 <= b0 <= k <= n == block@.len(),
                    bl == deep_chars(block@),
                    b0 < n,
                    buf@ == (if k == b0 {
                        Seq::<char>::empty()
                    } else {
                        joined(bl, b0 as int, k as int)
                    }),
                decreases n - k,
            {
                let ghost old_buf = buf@;
                if k > b0 {
                    buf.push('\n');
                }
                let mut c: usize = 0;
                let line_len = block[k].len();
                let ghost mid_buf = buf@;
                while c < line_len
                    invariant
                        0 <= c <= line_len == block@[k as int]@.len(),
                        0 <= k < block@.len(),
                        buf@ == mid_buf + block@[k as int]@.subrange(0, c as int),
                    decreases line_len - c,
                {
                    buf.push(block[k][c]);
                    c = c + 1;
                    proof {
                        assert(buf@ =~= mid_buf + block@[k as int]@.subrange(0, c as int));
                    }
                }
                proof {
                    assert(block@[k as int]@.subrange(0, line_len as int) =~= block@[k as int]@);
                    assert(bl[k as int] == block@[k as int]@);
                    lemma_joined_snoc(bl, b0 as int, k as int);
                    if k == b0 {
                        assert(buf@ =~= joined(bl, b0 as int, b0 + 1));
                    } else {
                        assert(buf@ =~= old_buf + seq!['\n'] + bl[k as int]);
                        assert(buf@ =~= joined(bl, b0 as int, k + 1));
                    }
                }
                k = k + 1;
            }
            proof {
                assert(joined(bl, b0 as int, n as int) == buf@);
            }
            let tb = crate::text::trim_chars(&buf);
            if tb.len() > 0 {
                body = Some(crate::text::chars_string(&tb));
            }
        }
        proof {
            if !(blank && hend + 1 < n) {
                assert(hend + 1 >= bl.len());
                assert(body_spec(bl, hend + 1) is None);
            }
        }
        let req = ParsedRequest {
            method,
            url,
            headers,
            body,
            metadata: meta,
            line_number: start_line,
        };
        proof {
            let target = parse_block_spec(bl, st);
            match request_line_spec(trim_spec(bl[i as int]), st + i) {
                Ok(p) => {
                    assert(req@ =~= (ReqView {
                        method: p.0,
                        url: p.1,
                        headers: collect_headers(bl, i + 1, headers_end(bl, i + 1)),
                        body: body_spec(bl, headers_end(bl, i + 1) + 1),
                        metadata: meta@,
                        line_number: st,
                    }));
                },
                Err(_) => {
                    assert(false);
                },
            }
        }
        Ok(Some(req))
    }

    /// Parse a whole document, as `parse_content_spec` says.
    pub fn parse_content(content: &str) -> (r: ParseResult<ParsedFile>)
        ensures
            match r {
                Ok(f) => parse_content_spec(content@) == Ok::<Seq<ReqView>, ParseErrorView>(
                    f@.requests,
                ) && f@.source_path is None,
                Err(e) => parse_content_spec(content@) == Err::<Seq<ReqView>, ParseErrorView>(e@),
            },
    {
        let cs = crate::text::str_chars(content);
        let lines = crate::text::split_lines_chars(&cs);
        proof {
            crate::text::lemma_split_lines_count(cs@, 0);
            assert(deep_chars(lines@).len() == lines@.len());
        }
        let blocks = split_blocks_exec(&lines);
        let ghost bv = blocks_view(blocks@);
        if blocks.len() == 0 {
            return Err(ParseError::NoRequests);
        }
        let mut file = ParsedFile::new();
        let nb = blocks.len();
        let mut b: usize = 0;
        proof {
            assert(bv[0].0 == deep_chars(blocks@[0].0@));
        }
        while b < nb
            invariant
                0 <= b <= nb == blocks@.len(),
                bv == blocks_view(blocks@),
                bv == split_blocks(split_lines(content@)),
                bv.len() > 0,
                lines@.len() <= usize::MAX / 2,
                forall|k: int|
                    0 <= k < blocks@.len() ==> 1 <= (#[trigger] blocks@[k]).1 && blocks@[k].1 - 1
                        + blocks@[k].0@.len() <= lines@.len(),
                file@.source_path is None,
                parse_blocks_from(bv, 0, Seq::empty()) == parse_blocks_from(
                    bv,
                    b as int,
                    file@.requests,
                ),
            decreases nb - b,
        {
            let ghost pre = file@.requests;
            proof {
                assert(bv[b as int].0 == deep_chars(blocks@[b as int].0@));
                assert(bv[b as int].1 == blocks@[b as int].1 as int);
            }
            match Self::parse_request_block(&blocks[b].0, blocks[b].1) {
                Ok(Some(req)) => {
                    file.add_request(req);
                },
                Ok(None) => {},
                Err(e) => {
                    return Err(e);
                },
            }
            b = b + 1;
        }
        if file.requests.len() == 0 {
            proof {
                assert(file@.requests.len() == 0);
                assert(file@.requests =~= Seq::<ReqView>::empty());
            }
            return Err(ParseError::NoRequests);
        }
        Ok(file)
    }
}

proof fn lemma_split_blocks_no_sep(lines: Seq<Seq<char>>, i: int, cur: Seq<Seq<char>>, cs: int)
    requires
        0 <= i,
        forall|k: int| i <= k < lines.len() ==> !is_sep_line(#[trigger] lines[k]),
    ensures
        split_blocks_from(lines, i, cur, cs).len() <= 1,
    decreases lines.len() - i,
{
    if i < lines.len() {
        lemma_split_blocks_no_sep(lines, i + 1, cur.push(lines[i]), cs);
    }
}

proof fn lemma_parse_blocks_len(blocks: Seq<(Seq<Seq<char>>, int)>, i: int, acc: Seq<ReqView>)
    requires
        0 <= i <= blocks.len(),
    ensures
        parse_blocks_from(blocks, i, acc) matches Ok(r) ==> acc.len() <= r.len() <= acc.len() + (
        blocks.len() - i),
    decreases blocks.len() - i,
{
    if i < blocks.len() {
        match parse_block_spec(blocks[i].0, blocks[i].1) {
            Err(_) => {},
            Ok(Some(rv)) => {
                lemma_parse_blocks_len(blocks, i + 1, acc.push(rv));
            },
            Ok(None) => {
                lemma_parse_blocks_len(blocks, i + 1, acc);
            },
        }
    }
}

/// Law: a document without a `###` delimiter line parses, when it parses at
/// all, to exactly one request.
pub proof fn lemma_no_separator_single_request(content: Seq<char>)
    requires
        forall|k: int|
            0 <= k < split_lines(content).len() ==> !is_sep_line(
                #[trigger] split_lines(content)[k],
            ),
    ensures
        parse_content_spec(content) matches Ok(reqs) ==> reqs.len() == 1,
{
    let lines = split_lines(content);
    let blocks = split_blocks(lines);
    lemma_split_blocks_no_sep(lines, 0, Seq::empty(), 1);
    lemma_parse_blocks_len(blocks, 0, Seq::empty());
}

/// A line that ends the leading metadata section: non-blank, no comment, no
/// directive — a request line.
pub open spec fn substantive_line(t: Seq<char>) -> bool {
    t.len() > 0 && !is_comment_t(t) && !is_meta_t(t)
}

/// A block with a request line.
pub open spec fn block_has_request(b: Seq<Seq<char>>) -> bool {
    exists|k: int| 0 <= k < b.len() && substantive_line(trim_spec(#[trigger] b[k]))
}

proof fn lemma_meta_scan_stops(bl: Seq<Seq<char>>, i: int, st: int, m: MetaView)
    requires
        0 <= i,
        exists|k: int| i <= k < bl.len() && substantive_line(trim_spec(#[trigger] bl[k])),
    ensures
        meta_scan(bl, i, st, m) matches Ok(p) ==> p.1 < bl.len(),
    decreases bl.len() - i,
{
    let k = choose|k: int| i <= k < bl.len() && substantive_line(trim_spec(#[trigger] bl[k]));
    let t = trim_spec(bl[i]);
    if t.len() == 0 || is_comment_t(t) {
        assert(k != i);
        lemma_meta_scan_stops(bl, i + 1, st, m);
    } else if is_meta_t(t) {
        assert(k != i);
        match meta_line_spec(t) {
            Ok(Some(d)) => {
                lemma_meta_scan_stops(bl, i + 1, st, apply_meta_spec(d, m));
            },
            Ok(None) => {
                lemma_meta_scan_stops(bl, i + 1, st, m);
            },
            Err(_) => {},
        }
    }
}

proof fn lemma_parse_blocks_exact(blocks: Seq<(Seq<Seq<char>>, int)>, i: int, acc: Seq<ReqView>)
    requires
        0 <= i <= blocks.len(),
        forall|k: int| i <= k < blocks.len() ==> block_has_request((#[trigger] blocks[k]).0),
    ensures
        parse_blocks_from(blocks, i, acc) matches Ok(r) ==> r.len() == acc.len() + (blocks.len()
            - i),
    decreases blocks.len() - i,
{
    if i < blocks.len() {
        let bl = blocks[i].0;
        assert(block_has_request(bl));
        let w = choose|k: int| 0 <= k < bl.len() && substantive_line(trim_spec(#[trigger] bl[k]));
        lemma_meta_scan_stops(bl, 0, blocks[i].1, empty_meta());
        match parse_block_spec(bl, blocks[i].1) {
            Err(_) => {},
            Ok(Some(rv)) => {
                lemma_parse_blocks_exact(blocks, i + 1, acc.push(rv));
            },
            Ok(None) => {
                assert(false);
            },
        }
    }
}

/// Law: when every delimiter-separated block holds a request line, a
/// successful parse yields exactly one request per non-empty block.
pub proof fn lemma_request_per_block(content: Seq<char>)
    requires
        forall|k: int|
            0 <= k < split_blocks(split_lines(content)).len() ==> block_has_request(
                (#[trigger] split_blocks(split_lines(content))[k]).0,
            ),
    ensures
        parse_content_spec(content) matches Ok(reqs) ==> reqs.len() == split_blocks(
            split_lines(content),
        ).len(),
{
    let blocks = split_blocks(split_lines(content));
    lemma_parse_blocks_exact(blocks, 0, Seq::empty());
}

/// Parse a whole document from its text.
pub fn parse_content(content: &str) -> (r: ParseResult<ParsedFile>)
    ensures
        match r {
            Ok(f) => parse_content_spec(content@) == Ok::<Seq<ReqView>, ParseErrorView>(
                f@.requests,
            ) && f@.source_path is None,
            Err(e) => parse_content_spec(content@) == Err::<Seq<ReqView>, ParseErrorView>(e@),
        },
{
    HttpFileParser::parse_content(content)
}

} // verus!
