//! The `@`-directive grammar: `@name`, `@skip`, `@timeout`, `@assert` and
//! `@capture`, with unrecognised directives ignored.

use vstd::prelude::*;

use crate::parser::types::Metadata;
use crate::parser::types::MetaDirectiveView;
use crate::parser::types::MetaView;
use crate::parser::types::ParseError;
use crate::parser::types::ParseResult;
use crate::parser::types::RequestMetadata;
use crate::text::all_digits;
use crate::text::chars_string;
use crate::text::copy_range;
use crate::text::deep_chars;
use crate::text::digits_val;
use crate::text::eq_str;
use crate::text::first_space;
use crate::text::lemma_first_space_bounds;
use crate::text::parse_u64;
use crate::text::split_ws;
use crate::text::split_ws_chars;
use crate::text::str_chars;
use crate::text::trim_chars;
use crate::text::trim_spec;
use crate::variable::capture::capture_parse_spec;
use crate::variable::capture::VariableCapture;

verus! {

/// The numeric value of a digit string when it names a `u64`.
pub open spec fn num_of(d: Seq<char>) -> Option<int> {
    if d.len() > 0 && all_digits(d) && digits_val(d) <= u64::MAX {
        Some(digits_val(d))
    } else {
        None
    }
}

/// The duration grammar: an integer with one of the suffixes `ms`, `s` or
/// `m`, as a number of milliseconds; `None` for anything else, and for a
/// value that does not fit in a `u64` of milliseconds.
pub open spec fn duration_ms_spec(s: Seq<char>) -> Option<int> {
    let t = trim_spec(s);
    if t.len() >= 2 && t.subrange(t.len() - 2, t.len() as int) == "ms"@ {
        num_of(t.subrange(0, t.len() - 2))
    } else if t.len() >= 1 && t[t.len() - 1] == 's' {
        match num_of(t.subrange(0, t.len() - 1)) {
            Some(v) => if v * 1000 <= u64::MAX {
                Some(v * 1000)
            } else {
                None
            },
            None => None,
        }
    } else if t.len() >= 1 && t[t.len() - 1] == 'm' {
        match num_of(t.subrange(0, t.len() - 1)) {
            Some(v) => if v * 60000 <= u64::MAX {
                Some(v * 60000)
            } else {
                None
            },
            None => None,
        }
    } else {
        None
    }
}

/// Parse a duration string into milliseconds, as `duration_ms_spec` says.
pub fn duration_ms(v: &Vec<char>) -> (r: Option<u64>)
    ensures
        match r {
            Some(x) => duration_ms_spec(v@) == Some(x as int),
            None => duration_ms_spec(v@) is None,
        },
{
    let t = trim_chars(v);
    let n = t.len();
    if n >= 2 && t[n - 1] == 's' && t[n - 2] == 'm' {
        proof {
            assert(t@.subrange(n - 2, n as int) =~= "ms"@) by {
                reveal_strlit("ms");
            }
        }
        let d = copy_range(&t, 0, n - 2);
        parse_u64(&d)
    } else if n >= 1 && t[n - 1] == 's' {
        proof {
            if t@.len() >= 2 && t@.subrange(n - 2, n as int) == "ms"@ {
                reveal_strlit("ms");
                assert(t@.subrange(n - 2, n as int)[0] == t@[n - 2]);
                assert(t@.subrange(n - 2, n as int)[1] == t@[n - 1]);
                assert(false);
            }
        }
        let d = copy_range(&t, 0, n - 1);
        match parse_u64(&d) {
            Some(x) => {
                if x <= u64::MAX / 1000 {
                    Some(x * 1000)
                } else {
                    proof {
                        assert(x * 1000 > u64::MAX) by (nonlinear_arith)
                            requires
                                x > u64::MAX / 1000,
                                x <= u64::MAX,
                        ;
                    }
                    None
                }
            },
            None => None,
        }
    } else if n >= 1 && t[n - 1] == 'm' {
        proof {
            if t@.len() >= 2 && t@.subrange(n - 2, n as int) == "ms"@ {
                reveal_strlit("ms");
                assert(t@.subrange(n - 2, n as int)[0] == t@[n - 2]);
                assert(t@.subrange(n - 2, n as int)[1] == t@[n - 1]);
                assert(false);
            }
        }
        let d = copy_range(&t, 0, n - 1);
        match parse_u64(&d) {
            Some(x) => {
                if x <= u64::MAX / 60000 {
                    Some(x * 60000)
                } else {
                    proof {
                        assert(x * 60000 > u64::MAX) by (nonlinear_arith)
                            requires
                                x > u64::MAX / 60000,
                                x <= u64::MAX,
                        ;
                    }
                    None
                }
            },
            None => None,
        }
    } else {
        proof {
            if t@.len() >= 2 && t@.subrange(n - 2, n as int) == "ms"@ {
                reveal_strlit("ms");
                assert(t@.subrange(n - 2, n as int)[0] == t@[n - 2]);
                assert(t@.subrange(n - 2, n as int)[1] == t@[n - 1]);
                assert(false);
            }
        }
        None
    }
}

/// Parse a duration directive argument; an unparseable one is invalid
/// metadata.
pub fn parse_duration(s: &str) -> (r: ParseResult<u64>)
    ensures
        match r {
            Ok(ms) => duration_ms_spec(s@) == Some(ms as int),
            Err(e) => duration_ms_spec(s@) is None && e@
                == crate::parser::types::ParseErrorView::InvalidMetadata(0),
        },
{
    let v = str_chars(s);
    match duration_ms(&v) {
        Some(ms) => Ok(ms),
        None => Err(
            ParseError::InvalidMetadata {
                line: 0,
                message: "invalid duration: expected an integer with an 'ms', 's' or 'm' suffix".to_owned(),
            },
        ),
    }
}

/// What one trimmed line means: `Ok(None)` for no directive or an
/// unrecognised one, `Err` for a malformed argument.
pub open spec fn meta_line_spec(s: Seq<char>) -> Result<Option<MetaDirectiveView>, ()> {
    let t = trim_spec(s);
    if t.len() == 0 || t[0] != '@' {
        Ok(None)
    } else {
        let sp = first_space(t, 0);
        let d = t.subrange(0, sp);
        let c = if sp >= t.len() {
            Seq::<char>::empty()
        } else {
            trim_spec(t.subrange(sp + 1, t.len() as int))
        };
        if d == "@name"@ {
            Ok(Some(MetaDirectiveView::Name(c)))
        } else if d == "@skip"@ {
            Ok(Some(MetaDirectiveView::Skip(c != "false"@)))
        } else if d == "@timeout"@ {
            match duration_ms_spec(c) {
                Some(ms) => Ok(Some(MetaDirectiveView::Timeout(ms as u64))),
                None => Err(()),
            }
        } else if d == "@assert"@ {
            Ok(Some(MetaDirectiveView::Assert(c)))
        } else if d == "@capture"@ {
            let parts = split_ws(c);
            if parts.len() >= 3 && parts[1] == "from"@ {
                Ok(Some(MetaDirectiveView::Capture(parts[0], parts[2])))
            } else {
                Err(())
            }
        } else {
            Ok(None)
        }
    }
}

/// Parse one line as a directive. Lines that carry no `@`-directive, and
/// directives this grammar does not know, come back as `Ok(None)`.
pub fn parse_metadata(line: &str) -> (r: ParseResult<Option<Metadata>>)
    ensures
        match r {
            Ok(Some(m)) => meta_line_spec(line@) == Ok::<_, ()>(Some(m@)),
            Ok(None) => meta_line_spec(line@) == Ok::<Option<MetaDirectiveView>, ()>(None),
            Err(e) => meta_line_spec(line@) is Err && e@
                == crate::parser::types::ParseErrorView::InvalidMetadata(0),
        },
{
    match parse_meta_line(line, 0) {
        Ok(m) => Ok(m),
        Err(e) => Err(e),
    }
}

/// Parse one trimmed line as a directive, attaching `line` to any error.
pub fn parse_meta_line(line: &str, line_no: usize) -> (r: ParseResult<Option<Metadata>>)
    ensures
        match r {
            Ok(Some(m)) => meta_line_spec(line@) == Ok::<_, ()>(Some(m@)),
            Ok(None) => meta_line_spec(line@) == Ok::<Option<MetaDirectiveView>, ()>(None),
            Err(e) => meta_line_spec(line@) is Err && e@
                == crate::parser::types::ParseErrorView::InvalidMetadata(line_no as int),
        },
{
    let lv = str_chars(line);
    let t = trim_chars(&lv);
    let n = t.len();
    if n == 0 || t[0] != '@' {
        return Ok(None);
    }
    let mut sp: usize = 0;
    while sp < n && !crate::text::is_space(t[sp])
        invariant
            0 <= sp <= n == t@.len(),
            first_space(t@, 0) == first_space(t@, sp as int),
        decreases n - sp,
    {
        sp = sp + 1;
    }
    proof {
        lemma_first_space_bounds(t@, sp as int);
        assert(first_space(t@, 0) == sp);
    }
    let d = copy_range(&t, 0, sp);
    let c: Vec<char> = if sp >= n {
        Vec::new()
    } else {
        trim_chars(&copy_range(&t, sp + 1, n))
    };
    proof {
        if sp < n {
            assert(t@.subrange(sp + 1, n as int) == t@.subrange(sp + 1, t@.len() as int));
        }
    }
    if eq_str(&d, "@name") {
        Ok(Some(Metadata::Name(chars_string(&c))))
    } else if eq_str(&d, "@skip") {
        let value = !eq_str(&c, "false");
        Ok(Some(Metadata::Skip(value)))
    } else if eq_str(&d, "@timeout") {
        match duration_ms(&c) {
            Some(ms) => Ok(Some(Metadata::Timeout(ms))),
            None => Err(
                ParseError::InvalidMetadata {
                    line: line_no,
                    message: "invalid duration: expected an integer with an 'ms', 's' or 'm' suffix".to_owned(),
                },
            ),
        }
    } else if eq_str(&d, "@assert") {
        Ok(Some(Metadata::Assert(chars_string(&c))))
    } else if eq_str(&d, "@capture") {
        let parts = split_ws_chars(&c);
        if parts.len() >= 3 && eq_str(&parts[1], "from") {
            proof {
                assert(deep_chars(parts@)[1] == parts@[1]@);
                assert(deep_chars(parts@)[0] == parts@[0]@);
                assert(deep_chars(parts@)[2] == parts@[2]@);
            }
            Ok(Some(
                Metadata::Capture {
                    var_name: chars_string(&parts[0]),
                    source: chars_string(&parts[2]),
                },
            ))
        } else {
            proof {
                if parts@.len() >= 3 {
                    assert(deep_chars(parts@)[1] == parts@[1]@);
                }
            }
            Err(
                ParseError::InvalidMetadata {
                    line: line_no,
                    message: "invalid capture: expected '@capture <var> from <source>'".to_owned(),
                },
            )
        }
    } else {
        Ok(None)
    }
}

/// The metadata after one directive is applied.
pub open spec fn apply_meta_spec(d: MetaDirectiveView, m: MetaView) -> MetaView {
    match d {
        MetaDirectiveView::Name(n) => MetaView { name: Some(n), ..m },
        MetaDirectiveView::Skip(b) => MetaView { skip: b, ..m },
        MetaDirectiveView::Timeout(t) => MetaView { timeout: Some(t), ..m },
        MetaDirectiveView::Assert(a) => MetaView { assertions: m.assertions.push(a), ..m },
        MetaDirectiveView::Capture(n, src) => (MetaView {
            captures: m.captures.push(capture_parse_spec(n, src)),
            ..m
        }),
    }
}

/// Apply one directive to a request's metadata.
pub fn apply_metadata(metadata: &Metadata, target: &mut RequestMetadata)
    ensures
        final(target)@ == apply_meta_spec(metadata@, old(target)@),
{
    match metadata {
        Metadata::Name(name) => {
            target.name = Some(name.clone());
        },
        Metadata::Skip(skip) => {
            target.skip = *skip;
        },
        Metadata::Timeout(t) => {
            target.timeout = Some(*t);
        },
        Metadata::Assert(expr) => {
            target.assertions.push(expr.clone());
            proof {
                assert(target@.assertions =~= old(target)@.assertions.push(expr@));
            }
        },
        Metadata::Capture { var_name, source } => {
            target.captures.push(VariableCapture::parse(var_name.as_str(), source.as_str()));
            proof {
                assert(target@.captures =~= old(target)@.captures.push(
                    capture_parse_spec(var_name@, source@),
                ));
            }
        },
    }
}

} // verus!
