//! Reading assertion text into an expression.

use vstd::prelude::*;

use crate::assertion::types::AssertError;
use crate::assertion::types::AssertErrKind;
use crate::assertion::types::AssertExpr;
use crate::assertion::types::AssertValue;
use crate::assertion::types::CompareOp;
use crate::assertion::types::ExprView;
use crate::assertion::types::PathView;
use crate::assertion::types::ValuePath;
use crate::assertion::types::ValueView;
use crate::number::parse_number_spec;
use crate::text::chars_string;
use crate::text::copy_range;
use crate::text::find_char_from;
use crate::text::find_sub_from;
use crate::text::str_chars;
use crate::text::trim_chars;
use crate::text::trim_spec;

verus! {

/// Path segments split on dots; splitting never yields zero segments, and
/// empty segments are kept.
pub open spec fn split_dots(s: Seq<char>, i: int) -> Seq<Seq<char>>
    decreases s.len() - i,
{
    if i < 0 || i > s.len() {
        Seq::empty()
    } else {
        match find_char_from(s, '.', i) {
            Some(j) => {
                if i <= j < s.len() {
                    seq![s.subrange(i, j)] + split_dots(s, j + 1)
                } else {
                    Seq::empty()
                }
            },
            None => seq![s.subrange(i, s.len() as int)],
        }
    }
}

/// The path grammar: `status`, `response.time`, `headers.<name>` or
/// `body.<dot.path>`; anything else is a syntax error.
pub open spec fn value_path_spec(t: Seq<char>) -> Result<PathView, AssertErrKind> {
    if t == "status"@ {
        Ok(PathView::Status)
    } else if t == "response.time"@ {
        Ok(PathView::ResponseTime)
    } else if "headers."@.is_prefix_of(t) {
        Ok(PathView::Header(t.skip("headers."@.len() as int)))
    } else if "body."@.is_prefix_of(t) {
        Ok(PathView::Body(split_dots(t.skip("body."@.len() as int), 0)))
    } else {
        Err(AssertErrKind::InvalidSyntax)
    }
}

/// The literal grammar of a right-hand side: `null`, `true`, `false`, a
/// quoted string (single or double quotes, no escapes), a decimal number,
/// and otherwise the raw text.
pub open spec fn assert_value_spec(t: Seq<char>) -> ValueView {
    if t == "null"@ {
        ValueView::Null
    } else if t == "true"@ {
        ValueView::Bool(true)
    } else if t == "false"@ {
        ValueView::Bool(false)
    } else if t.len() >= 2 && ((t[0] == '"' && t[t.len() - 1] == '"') || (t[0] == '\'' && t[t.len()
        - 1] == '\'')) {
        ValueView::Str(t.subrange(1, t.len() - 1))
    } else {
        match parse_number_spec(t) {
            Some(n) => ValueView::Number(n),
            None => ValueView::Str(t),
        }
    }
}

/// The first operator the scan finds: operators are tried in priority
/// order, and the first one that occurs anywhere in the text wins.
pub open spec fn find_op(t: Seq<char>) -> Option<(CompareOp, int, int)> {
    if find_sub_from(t, ">="@, 0) is Some {
        Some((CompareOp::GreaterOrEqual, find_sub_from(t, ">="@, 0)->0, 2))
    } else if find_sub_from(t, "<="@, 0) is Some {
        Some((CompareOp::LessOrEqual, find_sub_from(t, "<="@, 0)->0, 2))
    } else if find_sub_from(t, "=="@, 0) is Some {
        Some((CompareOp::Equal, find_sub_from(t, "=="@, 0)->0, 2))
    } else if find_sub_from(t, "!="@, 0) is Some {
        Some((CompareOp::NotEqual, find_sub_from(t, "!="@, 0)->0, 2))
    } else if find_sub_from(t, ">"@, 0) is Some {
        Some((CompareOp::Greater, find_sub_from(t, ">"@, 0)->0, 1))
    } else if find_sub_from(t, "<"@, 0) is Some {
        Some((CompareOp::Less, find_sub_from(t, "<"@, 0)->0, 1))
    } else if find_sub_from(t, "contains"@, 0) is Some {
        Some((CompareOp::Contains, find_sub_from(t, "contains"@, 0)->0, 8))
    } else {
        None
    }
}

/// The assertion grammar: a trailing `exists` keyword makes an existence
/// check over the preceding path; otherwise the first operator found
/// splits the text into a path, an operator and a literal.
pub open spec fn parse_assertion_spec(input: Seq<char>) -> Result<ExprView, AssertErrKind> {
    let t = trim_spec(input);
    if t.len() >= "exists"@.len() && t.subrange(t.len() - "exists"@.len(), t.len() as int)
        == "exists"@ {
        match value_path_spec(trim_spec(t.subrange(0, t.len() - "exists"@.len()))) {
            Ok(p) => Ok(ExprView::Exists(p)),
            Err(e) => Err(e),
        }
    } else {
        match find_op(t) {
            None => Err(AssertErrKind::InvalidSyntax),
            Some(f) => {
                if 0 <= f.1 && f.1 + f.2 <= t.len() {
                    let left = trim_spec(t.subrange(0, f.1));
                    let right = trim_spec(t.subrange(f.1 + f.2, t.len() as int));
                    if left.len() == 0 {
                        Err(AssertErrKind::InvalidSyntax)
                    } else if right.len() == 0 {
                        Err(AssertErrKind::InvalidSyntax)
                    } else {
                        match value_path_spec(left) {
                            Ok(p) => Ok(ExprView::Compare(p, f.0, assert_value_spec(right))),
                            Err(e) => Err(e),
                        }
                    }
                } else {
                    Err(AssertErrKind::InvalidSyntax)
                }
            },
        }
    }
}

/// Parse a trimmed path, as `value_path_spec` says.
pub fn parse_value_path(input: &str) -> (r: Result<ValuePath, AssertError>)
    ensures
        match r {
            Ok(p) => value_path_spec(trim_spec(input@)) == Ok::<PathView, AssertErrKind>(p@),
            Err(e) => value_path_spec(trim_spec(input@)) == Err::<PathView, AssertErrKind>(e@),
        },
{
    let v = str_chars(input);
    let t = trim_chars(&v);
    parse_value_path_chars(&t)
}

/// Parse a trimmed path given as characters.
fn parse_value_path_chars(t: &Vec<char>) -> (r: Result<ValuePath, AssertError>)
    requires
        t@.len() + 1 <= usize::MAX,
    ensures
        match r {
            Ok(p) => value_path_spec(t@) == Ok::<PathView, AssertErrKind>(p@),
            Err(e) => value_path_spec(t@) == Err::<PathView, AssertErrKind>(e@),
        },
{
    if crate::text::eq_str(t, "status") {
        return Ok(ValuePath::Status);
    }
    if crate::text::eq_str(t, "response.time") {
        return Ok(ValuePath::ResponseTime);
    }
    if crate::text::starts_with(t, "headers.") {
        let pre = str_chars("headers.");
        let rest = copy_range(t, pre.len(), t.len());
        proof {
            assert(rest@ =~= t@.skip("headers."@.len() as int));
        }
        return Ok(ValuePath::Header(chars_string(&rest)));
    }
    if crate::text::starts_with(t, "body.") {
        let pre = str_chars("body.");
        let rest = copy_range(t, pre.len(), t.len());
        proof {
            assert(rest@ =~= t@.skip("body."@.len() as int));
        }
        let mut segs: Vec<String> = Vec::new();
        let n = rest.len();
        let mut i: usize = 0;
        let ghost target = split_dots(rest@, 0);
        proof {
            assert(segs@.map_values(|s: String| s@) =~= Seq::<Seq<char>>::empty());
            assert(Seq::<Seq<char>>::empty() + target =~= target);
        }
        while i <= n
            invariant
                0 <= i <= n + 1,
                n + 1 <= usize::MAX,
                n == rest@.len(),
                target == split_dots(rest@, 0),
                i <= n ==> segs@.map_values(|s: String| s@) + split_dots(rest@, i as int)
                    == target,
                i == n + 1 ==> segs@.map_values(|s: String| s@) == target,
            decreases n + 1 - i,
        {
            let ghost pre_segs = segs@;
            match crate::text::find_char_at(&rest, '.', i) {
                Some(j) => {
                    let piece = copy_range(&rest, i, j);
                    segs.push(chars_string(&piece));
                    proof {
                        assert(segs@.map_values(|s: String| s@) =~= pre_segs.map_values(
                            |s: String| s@,
                        ).push(rest@.subrange(i as int, j as int)));
                        assert(pre_segs.map_values(|s: String| s@).push(
                            rest@.subrange(i as int, j as int),
                        ) + split_dots(rest@, j + 1) =~= pre_segs.map_values(|s: String| s@) + (
                        seq![rest@.subrange(i as int, j as int)] + split_dots(rest@, j + 1)));
                    }
                    i = j + 1;
                },
                None => {
                    let piece = copy_range(&rest, i, n);
                    segs.push(chars_string(&piece));
                    proof {
                        assert(segs@.map_values(|s: String| s@) =~= pre_segs.map_values(
                            |s: String| s@,
                        ).push(rest@.subrange(i as int, n as int)));
                        assert(pre_segs.map_values(|s: String| s@).push(
                            rest@.subrange(i as int, n as int),
                        ) =~= pre_segs.map_values(|s: String| s@) + seq![rest@.subrange(
                            i as int,
                            n as int,
                        )]);
                    }
                    i = n + 1;
                },
            }
        }
        return Ok(ValuePath::Body(segs));
    }
    Err(
        AssertError::InvalidSyntax(
            "a value path must start with 'status', 'headers.', 'body.' or 'response.time'".to_owned(),
        ),
    )
}

/// Parse a right-hand literal, as `assert_value_spec` says.
fn parse_assert_value(t: &Vec<char>) -> (r: AssertValue)
    ensures
        r@ == assert_value_spec(t@),
        crate::assertion::types::value_wf(r@),
{
    if crate::text::eq_str(t, "null") {
        return AssertValue::Null;
    }
    if crate::text::eq_str(t, "true") {
        return AssertValue::Bool(true);
    }
    if crate::text::eq_str(t, "false") {
        return AssertValue::Bool(false);
    }
    let n = t.len();
    if n >= 2 && ((t[0] == '"' && t[n - 1] == '"') || (t[0] == '\'' && t[n - 1] == '\'')) {
        let inner = copy_range(t, 1, n - 1);
        return AssertValue::String(chars_string(&inner));
    }
    match crate::number::parse_number(t) {
        Some(num) => AssertValue::Number(num),
        None => AssertValue::String(chars_string(t)),
    }
}

/// Parse an assertion, as `parse_assertion_spec` says.
pub fn parse_assertion(input: &str) -> (r: Result<AssertExpr, AssertError>)
    ensures
        match r {
            Ok(e) => parse_assertion_spec(input@) == Ok::<ExprView, AssertErrKind>(e@)
                && crate::assertion::types::expr_wf(e@),
            Err(e) => parse_assertion_spec(input@) == Err::<ExprView, AssertErrKind>(e@),
        },
{
    let v = str_chars(input);
    let t = trim_chars(&v);
    let n = t.len();
    let kw = str_chars("exists");
    proof {
        reveal_strlit("exists");
    }
    if n >= kw.len() {
        let tail = copy_range(&t, n - kw.len(), n);
        if crate::text::eq_str(&tail, "exists") {
            proof {
                assert(t@.subrange(n - "exists"@.len(), n as int) == "exists"@);
            }
            let head = trim_chars(&copy_range(&t, 0, n - kw.len()));
            match parse_value_path_chars(&head) {
                Ok(p) => {
                    return Ok(AssertExpr::Exists { path: p });
                },
                Err(e) => {
                    return Err(e);
                },
            }
        }
    }
    proof {
        if t@.len() >= "exists"@.len() && t@.subrange(
            t@.len() - "exists"@.len(),
            t@.len() as int,
        ) == "exists"@ {
            assert(false);
        }
    }
    // Scan for the first operator, in priority order.
    let op_ge = str_chars(">=");
    let op_le = str_chars("<=");
    let op_eq = str_chars("==");
    let op_ne = str_chars("!=");
    let op_gt = str_chars(">");
    let op_lt = str_chars("<");
    let op_ct = str_chars("contains");
    let f = if let Some(p) = crate::text::find_sub(&t, &op_ge) {
        Some((CompareOp::GreaterOrEqual, p, op_ge.len()))
    } else if let Some(p) = crate::text::find_sub(&t, &op_le) {
        Some((CompareOp::LessOrEqual, p, op_le.len()))
    } else if let Some(p) = crate::text::find_sub(&t, &op_eq) {
        Some((CompareOp::Equal, p, op_eq.len()))
    } else if let Some(p) = crate::text::find_sub(&t, &op_ne) {
        Some((CompareOp::NotEqual, p, op_ne.len()))
    } else if let Some(p) = crate::text::find_sub(&t, &op_gt) {
        Some((CompareOp::Greater, p, op_gt.len()))
    } else if let Some(p) = crate::text::find_sub(&t, &op_lt) {
        Some((CompareOp::Less, p, op_lt.len()))
    } else if let Some(p) = crate::text::find_sub(&t, &op_ct) {
        Some((CompareOp::Contains, p, op_ct.len()))
    } else {
        None
    };
    proof {
        reveal_strlit(">=");
        reveal_strlit("<=");
        reveal_strlit("==");
        reveal_strlit("!=");
        reveal_strlit(">");
        reveal_strlit("<");
        reveal_strlit("contains");
    }
    match f {
        None => {
            proof {
                assert(find_op(t@) is None);
            }
            Err(
                AssertError::InvalidSyntax(
                    "no operator found in assertion".to_owned(),
                ),
            )
        },
        Some(op_found) => {
            let (op, pos, oplen) = op_found;
            proof {
                assert(find_op(t@) matches Some(g) && g.0 == op && g.1 == pos as int && g.2
                    == oplen as int);
            }
            let left = trim_chars(&copy_range(&t, 0, pos));
            let right = trim_chars(&copy_range(&t, pos + oplen, n));
            if left.len() == 0 {
                return Err(
                    AssertError::InvalidSyntax("left side of assertion is empty".to_owned()),
                );
            }
            if right.len() == 0 {
                return Err(
                    AssertError::InvalidSyntax("right side of assertion is empty".to_owned()),
                );
            }
            match parse_value_path_chars(&left) {
                Ok(p) => {
                    let value = parse_assert_value(&right);
                    Ok(AssertExpr::Compare { left: p, op, right: value })
                },
                Err(e) => Err(e),
            }
        },
    }
}

} // verus!
