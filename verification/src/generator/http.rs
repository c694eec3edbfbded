//! Turning history records back into a request document.

use vstd::prelude::*;

use crate::history::model::HistoryEntry;
use crate::http::types::append_chars;
use crate::text::chars_string;
use crate::text::dec_of;
use crate::text::lower_seq;
use crate::text::str_chars;
use crate::text::trim_spec;

verus! {

/// Generates `.http` documents out of history records.
pub struct HttpGenerator;

/// A header that transports add on their own and a generated document
/// should not hard-code.
pub open spec fn skip_header_spec(name: Seq<char>) -> bool {
    let l = lower_seq(name);
    l == "content-length"@ || l == "host"@ || l == "connection"@ || l == "accept-encoding"@ || l
        == "user-agent"@
}

/// The headers a generated block keeps, from index `i` on.
pub open spec fn kept_headers(hs: Seq<(Seq<char>, Seq<char>)>, i: int) -> Seq<char>
    decreases hs.len() - i,
{
    if i < 0 || i >= hs.len() {
        Seq::empty()
    } else {
        (if skip_header_spec(hs[i].0) {
            Seq::empty()
        } else {
            hs[i].0 + ": "@ + hs[i].1 + seq!['\n']
        }) + kept_headers(hs, i + 1)
    }
}

/// One generated block: a delimiter comment naming the record, the request
/// line, the kept headers, the body when one was sent, and an assertion
/// pinning the status that was observed.
pub open spec fn entry_block_spec(e: &HistoryEntry) -> Seq<char> {
    "### Request "@ + e.id@.take(
        if e.id@.len() < 8 {
            e.id@.len() as int
        } else {
            8
        },
    ) + seq!['\n'] + e.request.method@ + seq![' '] + e.request.url@ + seq!['\n'] + kept_headers(
        crate::http::response::headers_view(e.request.headers@),
        0,
    ) + (match e.request.body {
        Some(ref b) => {
            if trim_spec(b@).len() > 0 {
                seq!['\n'] + b@ + seq!['\n']
            } else {
                Seq::<char>::empty()
            }
        },
        None => Seq::<char>::empty(),
    }) + "\n# @assert status == "@ + dec_of(e.response.status as int) + seq!['\n']
}

/// The whole generated document: the blocks separated by blank lines, with
/// a final newline when there is anything at all.
pub open spec fn generate_spec(entries: Seq<HistoryEntry>, i: int) -> Seq<char>
    decreases entries.len() - i,
{
    if i < 0 || i >= entries.len() {
        Seq::empty()
    } else {
        (if i > 0 {
            "\n\n"@
        } else {
            Seq::<char>::empty()
        }) + entry_block_spec(&entries[i]) + generate_spec(entries, i + 1)
    }
}

impl HttpGenerator {
    /// Whether a header is one the generator drops.
    pub fn should_skip_header(name: &str) -> (r: bool)
        ensures
            r == skip_header_spec(name@),
    {
        let v = str_chars(name);
        let l = crate::text::to_lower_chars(&v);
        crate::text::eq_str(&l, "content-length") || crate::text::eq_str(&l, "host")
            || crate::text::eq_str(&l, "connection") || crate::text::eq_str(&l, "accept-encoding")
            || crate::text::eq_str(&l, "user-agent")
    }

    /// One record as a request block, as `entry_block_spec` says.
    pub fn format_entry(entry: &HistoryEntry) -> (r: String)
        ensures
            r@ == entry_block_spec(entry),
    {
        let mut out = str_chars("### Request ");
        let idv = str_chars(entry.id.as_str());
        let cut: usize = if idv.len() < 8 {
            idv.len()
        } else {
            8
        };
        let prefix = crate::text::copy_range(&idv, 0, cut);
        out = append_chars(out, &prefix);
        out.push('\n');
        let mv = str_chars(entry.request.method.as_str());
        out = append_chars(out, &mv);
        out.push(' ');
        let uv = str_chars(entry.request.url.as_str());
        out = append_chars(out, &uv);
        out.push('\n');
        let ghost hv = crate::http::response::headers_view(entry.request.headers@);
        let nh = entry.request.headers.len();
        let mut i: usize = 0;
        let ghost mid = out@;
        proof {
            assert(out@ + kept_headers(hv, 0) =~= mid + kept_headers(hv, 0));
        }
        while i < nh
            invariant
                0 <= i <= nh == entry.request.headers@.len(),
                hv == crate::http::response::headers_view(entry.request.headers@),
                out@ + kept_headers(hv, i as int) == mid + kept_headers(hv, 0),
            decreases nh - i,
        {
            let ghost pre = out@;
            if !Self::should_skip_header(entry.request.headers[i].0.as_str()) {
                let kv = str_chars(entry.request.headers[i].0.as_str());
                out = append_chars(out, &kv);
                out.push(':');
                out.push(' ');
                let vv = str_chars(entry.request.headers[i].1.as_str());
                out = append_chars(out, &vv);
                out.push('\n');
                proof {
                    assert(hv[i as int] == (
                        entry.request.headers@[i as int].0@,
                        entry.request.headers@[i as int].1@,
                    ));
                    assert(out@ =~= pre + (hv[i as int].0 + ": "@ + hv[i as int].1 + seq![
                        '\n',
                    ])) by {
                        reveal_strlit(": ");
                    }
                }
            }
            i = i + 1;
            proof {
                assert(out@ + kept_headers(hv, i as int) =~= pre + kept_headers(hv, i - 1));
            }
        }
        proof {
            assert(kept_headers(hv, nh as int) =~= Seq::<char>::empty());
        }
        match &entry.request.body {
            Some(b) => {
                let bv = str_chars(b.as_str());
                let tb = crate::text::trim_chars(&bv);
                if tb.len() > 0 {
                    out.push('\n');
                    out = append_chars(out, &bv);
                    out.push('\n');
                }
            },
            None => {},
        }
        let sfx = str_chars("\n# @assert status == ");
        out = append_chars(out, &sfx);
        let digits = crate::text::u64_dec(entry.response.status as u64);
        out = append_chars(out, &digits);
        out.push('\n');
        proof {
            assert(out@ =~= entry_block_spec(entry));
        }
        chars_string(&out)
    }

    /// A whole document out of the given records, as `generate_spec` says.
    pub fn generate(entries: &Vec<HistoryEntry>) -> (r: crate::Result<String>)
        ensures
            r matches Ok(s) && s@ == generate_spec(entries@, 0) + (if entries@.len() > 0 {
                seq!['\n']
            } else {
                Seq::<char>::empty()
            }),
    {
        let n = entries.len();
        let mut out: Vec<char> = Vec::new();
        let mut i: usize = 0;
        proof {
            assert(out@ + generate_spec(entries@, 0) =~= generate_spec(entries@, 0));
        }
        while i < n
            invariant
                0 <= i <= n == entries@.len(),
                out@ + generate_spec(entries@, i as int) == generate_spec(entries@, 0),
            decreases n - i,
        {
            let ghost pre = out@;
            if i > 0 {
                out.push('\n');
                out.push('\n');
            }
            let block = Self::format_entry(&entries[i]);
            let bv = str_chars(block.as_str());
            out = append_chars(out, &bv);
            i = i + 1;
            proof {
                if i - 1 > 0 {
                    assert(out@ =~= pre + ("\n\n"@ + entry_block_spec(&entries@[i - 1]))) by {
                        reveal_strlit("\n\n");
                    }
                } else {
                    assert(out@ =~= pre + entry_block_spec(&entries@[i - 1]));
                }
                assert(out@ + generate_spec(entries@, i as int) =~= pre + generate_spec(
                    entries@,
                    i - 1,
                ));
            }
        }
        if n > 0 {
            out.push('\n');
        }
        proof {
            assert(generate_spec(entries@, n as int) =~= Seq::<char>::empty());
            assert(out@ =~= generate_spec(entries@, 0) + (if entries@.len() > 0 {
                seq!['\n']
            } else {
                Seq::<char>::empty()
            }));
        }
        Ok(chars_string(&out))
    }
}

} // verus!
