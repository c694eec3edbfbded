//! The assertion language's values, operators, errors and results.

use vstd::prelude::*;

use crate::number::num_eq_val;
use crate::number::num_lt;
use crate::number::num_text;
use crate::number::num_wf;
use crate::number::Number;
use crate::number::Ord3;
use crate::text::find_sub_from;

verus! {

/// Why an assertion could not be read or evaluated.
#[derive(Debug)]
pub enum AssertError {
    InvalidSyntax(String),
    InvalidOperator(String),
    InvalidValue(String),
    PathNotFound(String),
    TypeMismatch { expected: String, actual: String },
    JsonError(String),
    ExtractionError(String),
}

/// The kind of an assertion error; the carried messages are presentation.
#[derive(PartialEq, Eq, Structural)]
pub enum AssertErrKind {
    InvalidSyntax,
    InvalidOperator,
    InvalidValue,
    PathNotFound,
    TypeMismatch,
    JsonError,
    ExtractionError,
}

impl View for AssertError {
    type V = AssertErrKind;

    open spec fn view(&self) -> AssertErrKind {
        match self {
            AssertError::InvalidSyntax(_) => AssertErrKind::InvalidSyntax,
            AssertError::InvalidOperator(_) => AssertErrKind::InvalidOperator,
            AssertError::InvalidValue(_) => AssertErrKind::InvalidValue,
            AssertError::PathNotFound(_) => AssertErrKind::PathNotFound,
            AssertError::TypeMismatch { .. } => AssertErrKind::TypeMismatch,
            AssertError::JsonError(_) => AssertErrKind::JsonError,
            AssertError::ExtractionError(_) => AssertErrKind::ExtractionError,
        }
    }
}

impl AssertError {
    /// A short description of the error.
    pub fn message(&self) -> (r: String)
    {
        match self {
            AssertError::InvalidSyntax(s) => s.clone(),
            AssertError::InvalidOperator(s) => s.clone(),
            AssertError::InvalidValue(s) => s.clone(),
            AssertError::PathNotFound(s) => s.clone(),
            AssertError::TypeMismatch { expected, .. } => expected.clone(),
            AssertError::JsonError(s) => s.clone(),
            AssertError::ExtractionError(s) => s.clone(),
        }
    }
}

/// A comparison operator.
#[derive(Clone, Copy, PartialEq, Eq, Structural, Debug)]
pub enum CompareOp {
    Equal,
    NotEqual,
    Greater,
    Less,
    GreaterOrEqual,
    LessOrEqual,
    Contains,
}

/// The operator a token denotes, if any.
pub open spec fn op_of(s: Seq<char>) -> Option<CompareOp> {
    if s == "=="@ {
        Some(CompareOp::Equal)
    } else if s == "!="@ {
        Some(CompareOp::NotEqual)
    } else if s == ">"@ {
        Some(CompareOp::Greater)
    } else if s == "<"@ {
        Some(CompareOp::Less)
    } else if s == ">="@ {
        Some(CompareOp::GreaterOrEqual)
    } else if s == "<="@ {
        Some(CompareOp::LessOrEqual)
    } else if s == "contains"@ {
        Some(CompareOp::Contains)
    } else {
        None
    }
}

/// The canonical spelling of an operator.
pub open spec fn op_name(op: CompareOp) -> Seq<char> {
    match op {
        CompareOp::Equal => "=="@,
        CompareOp::NotEqual => "!="@,
        CompareOp::Greater => ">"@,
        CompareOp::Less => "<"@,
        CompareOp::GreaterOrEqual => ">="@,
        CompareOp::LessOrEqual => "<="@,
        CompareOp::Contains => "contains"@,
    }
}

impl CompareOp {
    /// Parse an operator token.
    pub fn parse(s: &str) -> (r: Option<CompareOp>)
        ensures
            r == op_of(s@),
    {
        let v = crate::text::str_chars(s);
        if crate::text::eq_str(&v, "==") {
            Some(CompareOp::Equal)
        } else if crate::text::eq_str(&v, "!=") {
            Some(CompareOp::NotEqual)
        } else if crate::text::eq_str(&v, ">") {
            Some(CompareOp::Greater)
        } else if crate::text::eq_str(&v, "<") {
            Some(CompareOp::Less)
        } else if crate::text::eq_str(&v, ">=") {
            Some(CompareOp::GreaterOrEqual)
        } else if crate::text::eq_str(&v, "<=") {
            Some(CompareOp::LessOrEqual)
        } else if crate::text::eq_str(&v, "contains") {
            Some(CompareOp::Contains)
        } else {
            None
        }
    }

    /// The canonical spelling.
    pub fn as_str(&self) -> (r: &'static str)
        ensures
            r@ == op_name(*self),
    {
        match self {
            CompareOp::Equal => "==",
            CompareOp::NotEqual => "!=",
            CompareOp::Greater => ">",
            CompareOp::Less => "<",
            CompareOp::GreaterOrEqual => ">=",
            CompareOp::LessOrEqual => "<=",
            CompareOp::Contains => "contains",
        }
    }
}

/// An addressable location in a response.
pub enum ValuePath {
    Status,
    Header(String),
    Body(Vec<String>),
    ResponseTime,
}

/// Spec-level shape of a value path.
pub enum PathView {
    Status,
    Header(Seq<char>),
    Body(Seq<Seq<char>>),
    ResponseTime,
}

impl View for ValuePath {
    type V = PathView;

    open spec fn view(&self) -> PathView {
        match self {
            ValuePath::Status => PathView::Status,
            ValuePath::Header(n) => PathView::Header(n@),
            ValuePath::Body(segs) => PathView::Body(segs@.map_values(|s: String| s@)),
            ValuePath::ResponseTime => PathView::ResponseTime,
        }
    }
}

/// The rendered form of a path, as assertions write it.
pub open spec fn path_text(p: PathView) -> Seq<char> {
    match p {
        PathView::Status => "status"@,
        PathView::Header(n) => "headers."@ + n,
        PathView::Body(segs) => "body."@ + join_dots(segs, segs.len() as int),
        PathView::ResponseTime => "response.time"@,
    }
}

/// The first `k` segments joined with dots.
pub open spec fn join_dots(segs: Seq<Seq<char>>, k: int) -> Seq<char>
    decreases k,
{
    if k <= 0 || k > segs.len() {
        Seq::empty()
    } else if k == 1 {
        segs[0]
    } else {
        join_dots(segs, k - 1) + seq!['.'] + segs[k - 1]
    }
}

/// A value an assertion compares: an exact decimal number, text, a boolean
/// or null.
pub enum AssertValue {
    Number(Number),
    String(String),
    Bool(bool),
    Null,
}

/// Spec-level shape of an assertion value.
pub enum ValueView {
    Number(Number),
    Str(Seq<char>),
    Bool(bool),
    Null,
}

impl View for AssertValue {
    type V = ValueView;

    open spec fn view(&self) -> ValueView {
        match self {
            AssertValue::Number(n) => ValueView::Number(*n),
            AssertValue::String(s) => ValueView::Str(s@),
            AssertValue::Bool(b) => ValueView::Bool(*b),
            AssertValue::Null => ValueView::Null,
        }
    }
}

/// Every number a value carries is canonical.
pub open spec fn value_wf(v: ValueView) -> bool {
    match v {
        ValueView::Number(n) => num_wf(n),
        _ => true,
    }
}

/// How a value prints: numbers by their decimal text, strings quoted,
/// booleans and null by their JSON spelling.
pub open spec fn value_text(v: ValueView) -> Seq<char> {
    match v {
        ValueView::Number(n) => num_text(n),
        ValueView::Str(s) => seq!['"'] + s + seq!['"'],
        ValueView::Bool(b) => if b {
            "true"@
        } else {
            "false"@
        },
        ValueView::Null => "null"@,
    }
}

/// `sub` occurs inside `s`.
pub open spec fn contains_spec(s: Seq<char>, sub: Seq<char>) -> bool {
    find_sub_from(s, sub, 0) is Some
}

/// The comparison table over (left type, operator, right type): numbers
/// compare exactly as rationals; strings support equality and substring
/// containment; booleans and null only equality; null compared with a
/// non-null value is unequal; any other pairing is a type error.
pub open spec fn compare_spec(a: ValueView, op: CompareOp, b: ValueView) -> Result<
    bool,
    AssertErrKind,
> {
    match (a, b) {
        (ValueView::Number(x), ValueView::Number(y)) => match op {
            CompareOp::Equal => Ok(num_eq_val(x, y)),
            CompareOp::NotEqual => Ok(!num_eq_val(x, y)),
            CompareOp::Greater => Ok(num_lt(y, x)),
            CompareOp::Less => Ok(num_lt(x, y)),
            CompareOp::GreaterOrEqual => Ok(!num_lt(x, y)),
            CompareOp::LessOrEqual => Ok(!num_lt(y, x)),
            CompareOp::Contains => Err(AssertErrKind::TypeMismatch),
        },
        (ValueView::Str(x), ValueView::Str(y)) => match op {
            CompareOp::Equal => Ok(x == y),
            CompareOp::NotEqual => Ok(x != y),
            CompareOp::Contains => Ok(contains_spec(x, y)),
            _ => Err(AssertErrKind::TypeMismatch),
        },
        (ValueView::Bool(x), ValueView::Bool(y)) => match op {
            CompareOp::Equal => Ok(x == y),
            CompareOp::NotEqual => Ok(x != y),
            _ => Err(AssertErrKind::InvalidOperator),
        },
        (ValueView::Null, ValueView::Null) => match op {
            CompareOp::Equal => Ok(true),
            CompareOp::NotEqual => Ok(false),
            _ => Err(AssertErrKind::InvalidOperator),
        },
        (ValueView::Null, _) => match op {
            CompareOp::Equal => Ok(false),
            CompareOp::NotEqual => Ok(true),
            _ => Err(AssertErrKind::InvalidOperator),
        },
        (_, ValueView::Null) => match op {
            CompareOp::Equal => Ok(false),
            CompareOp::NotEqual => Ok(true),
            _ => Err(AssertErrKind::InvalidOperator),
        },
        _ => Err(AssertErrKind::TypeMismatch),
    }
}

impl AssertValue {
    /// Compare two values, as `compare_spec` says.
    pub fn compare(&self, op: CompareOp, other: &AssertValue) -> (r: Result<bool, AssertError>)
        requires
            value_wf(self@),
            value_wf(other@),
        ensures
            match r {
                Ok(b) => compare_spec(self@, op, other@) == Ok::<bool, AssertErrKind>(b),
                Err(e) => compare_spec(self@, op, other@) == Err::<bool, AssertErrKind>(e@),
            },
    {
        match (self, other) {
            (AssertValue::Number(x), AssertValue::Number(y)) => {
                let c = crate::number::num_cmp(x, y);
                match op {
                    CompareOp::Equal => Ok(matches!(c, Ord3::Eq)),
                    CompareOp::NotEqual => Ok(!matches!(c, Ord3::Eq)),
                    CompareOp::Greater => Ok(matches!(c, Ord3::Gt)),
                    CompareOp::Less => Ok(matches!(c, Ord3::Lt)),
                    CompareOp::GreaterOrEqual => Ok(!matches!(c, Ord3::Lt)),
                    CompareOp::LessOrEqual => Ok(!matches!(c, Ord3::Gt)),
                    CompareOp::Contains => Err(
                        AssertError::TypeMismatch {
                            expected: "string".to_owned(),
                            actual: "number".to_owned(),
                        },
                    ),
                }
            },
            (AssertValue::String(x), AssertValue::String(y)) => {
                let xv = crate::text::str_chars(x.as_str());
                let yv = crate::text::str_chars(y.as_str());
                match op {
                    CompareOp::Equal => Ok(crate::text::eq_str(&xv, y.as_str())),
                    CompareOp::NotEqual => Ok(!crate::text::eq_str(&xv, y.as_str())),
                    CompareOp::Contains => {
                        match crate::text::find_sub(&xv, &yv) {
                            Some(_) => Ok(true),
                            None => Ok(false),
                        }
                    },
                    _ => Err(
                        AssertError::TypeMismatch {
                            expected: "number".to_owned(),
                            actual: "string".to_owned(),
                        },
                    ),
                }
            },
            (AssertValue::Bool(x), AssertValue::Bool(y)) => {
                match op {
                    CompareOp::Equal => Ok(x == y),
                    CompareOp::NotEqual => Ok(x != y),
                    _ => Err(
                        AssertError::InvalidOperator(
                            "operator not supported for boolean values".to_owned(),
                        ),
                    ),
                }
            },
            (AssertValue::Null, AssertValue::Null) => {
                match op {
                    CompareOp::Equal => Ok(true),
                    CompareOp::NotEqual => Ok(false),
                    _ => Err(
                        AssertError::InvalidOperator("operator not supported for null".to_owned()),
                    ),
                }
            },
            (AssertValue::Null, _) => {
                match op {
                    CompareOp::Equal => Ok(false),
                    CompareOp::NotEqual => Ok(true),
                    _ => Err(
                        AssertError::InvalidOperator(
                            "operator not supported for null comparison".to_owned(),
                        ),
                    ),
                }
            },
            (_, AssertValue::Null) => {
                match op {
                    CompareOp::Equal => Ok(false),
                    CompareOp::NotEqual => Ok(true),
                    _ => Err(
                        AssertError::InvalidOperator(
                            "operator not supported for null comparison".to_owned(),
                        ),
                    ),
                }
            },
            _ => Err(
                AssertError::TypeMismatch {
                    expected: "matching value types".to_owned(),
                    actual: "mixed value types".to_owned(),
                },
            ),
        }
    }

    /// The printed form, as `value_text` says.
    pub fn to_text(&self) -> (r: String)
        requires
            value_wf(self@),
        ensures
            r@ == value_text(self@),
    {
        match self {
            AssertValue::Number(n) => crate::number::num_string(n),
            AssertValue::String(s) => {
                let mut out: Vec<char> = Vec::new();
                out.push('"');
                let sv = crate::text::str_chars(s.as_str());
                let mut body = crate::http::types::append_chars(out, &sv);
                body.push('"');
                proof {
                    assert(body@ =~= value_text(self@));
                }
                crate::text::chars_string(&body)
            },
            AssertValue::Bool(b) => {
                if *b {
                    "true".to_owned()
                } else {
                    "false".to_owned()
                }
            },
            AssertValue::Null => "null".to_owned(),
        }
    }
}

/// Every number an expression carries is canonical.
pub open spec fn expr_wf(e: ExprView) -> bool {
    match e {
        ExprView::Compare(_, _, rv) => value_wf(rv),
        ExprView::Exists(_) => true,
    }
}

/// An assertion expression: a comparison, or a bare existence check.
pub enum AssertExpr {
    Compare { left: ValuePath, op: CompareOp, right: AssertValue },
    Exists { path: ValuePath },
}

/// Spec-level shape of an assertion expression.
pub enum ExprView {
    Compare(PathView, CompareOp, ValueView),
    Exists(PathView),
}

impl View for AssertExpr {
    type V = ExprView;

    open spec fn view(&self) -> ExprView {
        match self {
            AssertExpr::Compare { left, op, right } => ExprView::Compare(left@, *op, right@),
            AssertExpr::Exists { path } => ExprView::Exists(path@),
        }
    }
}

/// The outcome of one assertion.
pub struct AssertionResult {
    /// The assertion's text.
    pub raw: String,
    /// Whether it held.
    pub passed: bool,
    /// The printed actual value, absent when extraction failed.
    pub actual: Option<String>,
    /// A description of what was expected.
    pub expected: String,
    /// A failure message, absent on success.
    pub message: Option<String>,
}

impl AssertionResult {
    /// A passed assertion.
    pub fn success(raw: String, actual: String, expected: String) -> (r: Self)
        ensures
            r.raw@ == raw@,
            r.passed,
            r.actual matches Some(a) && a@ == actual@,
            r.expected@ == expected@,
            r.message is None,
    {
        AssertionResult { raw, passed: true, actual: Some(actual), expected, message: None }
    }

    /// A failed assertion with its actual value.
    pub fn failure(raw: String, actual: String, expected: String, message: String) -> (r: Self)
        ensures
            r.raw@ == raw@,
            !r.passed,
            r.actual matches Some(a) && a@ == actual@,
            r.expected@ == expected@,
            r.message matches Some(m) && m@ == message@,
    {
        AssertionResult {
            raw,
            passed: false,
            actual: Some(actual),
            expected,
            message: Some(message),
        }
    }

    /// A failed assertion whose value could not even be read.
    pub fn error(raw: String, error: AssertError) -> (r: Self)
        ensures
            r.raw@ == raw@,
            !r.passed,
            r.actual is None,
            r.expected@.len() == 0,
            r.message is Some,
    {
        AssertionResult {
            raw,
            passed: false,
            actual: None,
            expected: String::new(),
            message: Some(error.message()),
        }
    }
}

} // verus!
