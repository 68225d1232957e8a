//! The parser's error model: an error kind plus a breadcrumb path from the
//! document root to the offending value.

use crate::json::{JsonNumber, JsonValue};
use crate::text::view_strings;
use vstd::prelude::*;

verus! {

/// The shape classes a JSON value can have, for error reporting.
#[derive(Debug, Clone, Copy, PartialEq, Eq, Hash, Structural)]
pub enum ValueKind {
    Object,
    Array,
    String,
    Integer,
    Float,
    Bool,
    Null,
}

impl ValueKind {
    /// The shape class of a number: integral or not.
    pub fn for_number(n: crate::json::JsonNumber) -> (r: ValueKind)
        ensures
            r == spec_kind_for_number(n),
    {
        match n {
            crate::json::JsonNumber::Int(_) => ValueKind::Integer,
            crate::json::JsonNumber::BigUint(_) => ValueKind::Integer,
            crate::json::JsonNumber::Float => ValueKind::Float,
        }
    }
}

/// The shape class of a number: integral or not.
pub open spec fn spec_kind_for_number(n: crate::json::JsonNumber) -> ValueKind {
    match n {
        crate::json::JsonNumber::Float => ValueKind::Float,
        _ => ValueKind::Integer,
    }
}

/// The shape class of a JSON value.
pub open spec fn spec_value_kind(v: crate::json::JsonValue) -> ValueKind {
    match v {
        crate::json::JsonValue::Null => ValueKind::Null,
        crate::json::JsonValue::Bool(_) => ValueKind::Bool,
        crate::json::JsonValue::Number(n) => spec_kind_for_number(n),
        crate::json::JsonValue::String(_) => ValueKind::String,
        crate::json::JsonValue::Array(_) => ValueKind::Array,
        crate::json::JsonValue::Object(_) => ValueKind::Object,
    }
}

/// What went wrong at one node.
#[derive(Debug, Clone, PartialEq)]
pub enum ErrorKind {
    IncorrectType { expected: Vec<ValueKind>, found: ValueKind },
    UnknownFunction { name: String },
    MissingField { name: String },
    ParseInt,
    IncorrectArrayLength { expected: usize, found: usize },
}

/// A parse failure: what went wrong, and the breadcrumb path down to it.
///
/// The breadcrumb lists field names, array indices and grammar function
/// names from the document root (first) to the offending value (last); each
/// level of the parser prepends its own step as the failure propagates up.
#[derive(Debug, Clone, PartialEq)]
pub struct ParseError {
    pub context: Vec<String>,
    pub kind: ErrorKind,
}

/// Mirror of [`ErrorKind`].
pub enum ErrorKindV {
    IncorrectType { expected: Seq<ValueKind>, found: ValueKind },
    UnknownFunction { name: Seq<char> },
    MissingField { name: Seq<char> },
    ParseInt,
    IncorrectArrayLength { expected: usize, found: usize },
}

/// Mirror of [`ParseError`].
pub struct ParseErrorV {
    pub context: Seq<Seq<char>>,
    pub kind: ErrorKindV,
}

/// The mirror of an exec error kind.
pub open spec fn view_error_kind(k: ErrorKind) -> ErrorKindV {
    match k {
        ErrorKind::IncorrectType { expected, found } => ErrorKindV::IncorrectType {
            expected: expected@,
            found,
        },
        ErrorKind::UnknownFunction { name } => ErrorKindV::UnknownFunction { name: name@ },
        ErrorKind::MissingField { name } => ErrorKindV::MissingField { name: name@ },
        ErrorKind::ParseInt => ErrorKindV::ParseInt,
        ErrorKind::IncorrectArrayLength { expected, found } => ErrorKindV::IncorrectArrayLength {
            expected,
            found,
        },
    }
}

/// The mirror of an exec parse error.
pub open spec fn view_parse_error(e: ParseError) -> ParseErrorV {
    ParseErrorV { context: view_strings(e.context@), kind: view_error_kind(e.kind) }
}

/// A fresh error with an empty breadcrumb.
pub open spec fn spec_error(kind: ErrorKindV) -> ParseErrorV {
    ParseErrorV { context: Seq::empty(), kind }
}

/// `e` with one breadcrumb step prepended.
pub open spec fn spec_with_context(e: ParseErrorV, step: Seq<char>) -> ParseErrorV {
    ParseErrorV { context: seq![step] + e.context, kind: e.kind }
}

/// A fresh `IncorrectType` error expecting one kind.
pub open spec fn spec_incorrect_type(expected: ValueKind, found: ValueKind) -> ParseErrorV {
    spec_error(ErrorKindV::IncorrectType { expected: seq![expected], found })
}

/// The display name of a shape class.
pub open spec fn kind_name(k: ValueKind) -> Seq<char> {
    match k {
        ValueKind::Object => "Object"@,
        ValueKind::Array => "Array"@,
        ValueKind::String => "String"@,
        ValueKind::Integer => "Integer"@,
        ValueKind::Float => "Float"@,
        ValueKind::Bool => "Bool"@,
        ValueKind::Null => "Null"@,
    }
}

/// The display names of a sequence of shape classes.
pub open spec fn kind_names(ks: Seq<ValueKind>) -> Seq<Seq<char>> {
    Seq::new(ks.len(), |i: int| kind_name(ks[i]))
}

/// The human-readable description of an error kind.
pub open spec fn error_kind_message(k: ErrorKindV) -> Seq<char> {
    match k {
        ErrorKindV::IncorrectType { expected, found } => "incorrect type, expected "@ + (
        if expected.len() == 1 {
            kind_name(expected[0])
        } else {
            "one of "@ + crate::text::join_with(kind_names(expected), ", "@)
        }) + " but found "@ + kind_name(found),
        ErrorKindV::UnknownFunction { name } => "unable to handle a \""@ + name + "\""@,
        ErrorKindV::MissingField { name } => "missing the \""@ + name + "\" field"@,
        ErrorKindV::ParseInt => "unable to parse the value as an integer"@,
        ErrorKindV::IncorrectArrayLength { expected, found } => {
            "incorrect array length, expected "@ + crate::text::dec_str(expected as nat)
                + " but found "@ + crate::text::dec_str(found as nat)
        },
    }
}

/// The human-readable rendering of a whole parse error: the breadcrumb path
/// when there is one, then the error's description.
pub open spec fn error_message(e: ParseErrorV) -> Seq<char> {
    if e.context.len() > 0 {
        "At \""@ + crate::text::join_with(e.context, " > "@) + "\" "@ + error_kind_message(e.kind)
    } else {
        error_kind_message(e.kind)
    }
}

/// The display name of a shape class.
fn kind_name_str(k: ValueKind) -> (r: &'static str)
    ensures
        r@ == kind_name(k),
{
    match k {
        ValueKind::Object => "Object",
        ValueKind::Array => "Array",
        ValueKind::String => "String",
        ValueKind::Integer => "Integer",
        ValueKind::Float => "Float",
        ValueKind::Bool => "Bool",
        ValueKind::Null => "Null",
    }
}

impl ParseError {
    /// A fresh error with an empty breadcrumb.
    pub(crate) fn new(kind: ErrorKind) -> (r: ParseError)
        ensures
            view_parse_error(r) == spec_error(view_error_kind(kind)),
    {
        let r = ParseError { context: Vec::new(), kind };
        proof {
            assert(view_strings(r.context@) =~= Seq::<Seq<char>>::empty());
        }
        r
    }

    /// A fresh `IncorrectType` error expecting one kind.
    pub(crate) fn incorrect_type(expected: ValueKind, found: ValueKind) -> (r: ParseError)
        ensures
            view_parse_error(r) == spec_incorrect_type(expected, found),
    {
        let mut kinds: Vec<ValueKind> = Vec::new();
        kinds.push(expected);
        proof {
            assert(kinds@ =~= seq![expected]);
        }
        ParseError::new(ErrorKind::IncorrectType { expected: kinds, found })
    }

    /// A fresh `UnknownFunction` error.
    pub(crate) fn unknown_function(name: &str) -> (r: ParseError)
        ensures
            view_parse_error(r) == spec_error(ErrorKindV::UnknownFunction { name: name@ }),
    {
        ParseError::new(ErrorKind::UnknownFunction { name: name.to_owned() })
    }

    /// A fresh `MissingField` error.
    pub(crate) fn missing_field(name: &str) -> (r: ParseError)
        ensures
            view_parse_error(r) == spec_error(ErrorKindV::MissingField { name: name@ }),
    {
        ParseError::new(ErrorKind::MissingField { name: name.to_owned() })
    }

    /// Prepends one breadcrumb step, for a parser level that was parsing
    /// `step` when the inner failure came up.
    pub(crate) fn with_context(self, step: &str) -> (r: ParseError)
        ensures
            view_parse_error(r) == spec_with_context(view_parse_error(self), step@),
    {
        let ghost old_e = self;
        let mut context = self.context;
        context.insert(0, step.to_owned());
        let r = ParseError { context, kind: self.kind };
        proof {
            assert(view_strings(r.context@) =~= seq![step@] + view_strings(old_e.context@));
        }
        r
    }

    /// Renders this error for a human: the breadcrumb path from the
    /// document root when there is one, then what went wrong.
    pub fn message(&self) -> (r: String)
        ensures
            r@ == error_message(view_parse_error(*self)),
    {
        let mut r = String::new();
        if self.context.len() > 0 {
            r.append("At \"");
            let breadcrumbs = crate::text::join_strings(&self.context, " > ");
            r.append(breadcrumbs.as_str());
            r.append("\" ");
        }
        match &self.kind {
            ErrorKind::IncorrectType { expected, found } => {
                r.append("incorrect type, expected ");
                if expected.len() == 1 {
                    r.append(kind_name_str(expected[0]));
                } else {
                    r.append("one of ");
                    let mut names: Vec<String> = Vec::new();
                    let n = expected.len();
                    let mut i: usize = 0;
                    while i < n
                        invariant
                            n == expected@.len(),
                            i <= n,
                            names@.len() == i as int,
                            forall|j: int|
                                0 <= j < i ==> (#[trigger] names@[j])@ == kind_name(
                                    expected@[j],
                                ),
                        decreases n - i,
                    {
                        let ghost before = names@;
                        let name_string = kind_name_str(expected[i]).to_owned();
                        let ghost elem = name_string;
                        names.push(name_string);
                        proof {
                            assert(names@ == before.push(elem));
                            assert forall|j: int| 0 <= j < i + 1 implies (#[trigger] names@[j])@
                                == kind_name(expected@[j]) by {
                                if j < i as int {
                                    assert(before.push(elem)[j] == before[j]);
                                }
                            }
                        }
                        i += 1;
                    }
                    proof {
                        assert(crate::text::view_strings(names@) =~= kind_names(expected@));
                    }
                    let joined = crate::text::join_strings(&names, ", ");
                    r.append(joined.as_str());
                }
                r.append(" but found ");
                r.append(kind_name_str(*found));
            },
            ErrorKind::UnknownFunction { name } => {
                r.append("unable to handle a \"");
                r.append(name.as_str());
                r.append("\"");
            },
            ErrorKind::MissingField { name } => {
                r.append("missing the \"");
                r.append(name.as_str());
                r.append("\" field");
            },
            ErrorKind::ParseInt => {
                r.append("unable to parse the value as an integer");
            },
            ErrorKind::IncorrectArrayLength { expected, found } => {
                r.append("incorrect array length, expected ");
                let rendered = crate::text::usize_to_string(*expected);
                r.append(rendered.as_str());
                r.append(" but found ");
                let rendered = crate::text::usize_to_string(*found);
                r.append(rendered.as_str());
            },
        }
        r
    }

    /// Prepends one breadcrumb step that is an array index.
    pub(crate) fn with_context_index(self, index: usize) -> (r: ParseError)
        ensures
            view_parse_error(r) == spec_with_context(
                view_parse_error(self),
                crate::text::dec_str(index as nat),
            ),
    {
        let ghost old_e = self;
        let step = crate::text::usize_to_string(index);
        let mut context = self.context;
        context.insert(0, step);
        let r = ParseError { context, kind: self.kind };
        proof {
            assert(view_strings(r.context@) =~= seq![crate::text::dec_str(index as nat)]
                + view_strings(old_e.context@));
        }
        r
    }
}

impl JsonValue {
    /// The shape class of this value.
    pub fn value_kind(&self) -> (r: ValueKind)
        ensures
            r == spec_value_kind(*self),
    {
        match self {
            JsonValue::Null => ValueKind::Null,
            JsonValue::Bool(_) => ValueKind::Bool,
            JsonValue::Number(n) => ValueKind::for_number(*n),
            JsonValue::String(_) => ValueKind::String,
            JsonValue::Array(_) => ValueKind::Array,
            JsonValue::Object(_) => ValueKind::Object,
        }
    }

    /// This value's entry list, or an `IncorrectType` error.
    pub fn expect_object(&self) -> (r: Result<&Vec<(String, JsonValue)>, ParseError>)
        ensures
            match *self {
                JsonValue::Object(es) => r matches Ok(e) && e@ == es@,
                _ => r matches Err(e) && view_parse_error(e) == spec_incorrect_type(
                    ValueKind::Object,
                    spec_value_kind(*self),
                ),
            },
    {
        match self {
            JsonValue::Object(entries) => Ok(entries),
            other => Err(ParseError::incorrect_type(ValueKind::Object, other.value_kind())),
        }
    }

    /// This value's element list, or an `IncorrectType` error.
    pub fn expect_array(&self) -> (r: Result<&Vec<JsonValue>, ParseError>)
        ensures
            match *self {
                JsonValue::Array(items) => r matches Ok(a) && a@ == items@,
                _ => r matches Err(e) && view_parse_error(e) == spec_incorrect_type(
                    ValueKind::Array,
                    spec_value_kind(*self),
                ),
            },
    {
        match self {
            JsonValue::Array(items) => Ok(items),
            other => Err(ParseError::incorrect_type(ValueKind::Array, other.value_kind())),
        }
    }

    /// This value's text, or an `IncorrectType` error.
    pub fn expect_string(&self) -> (r: Result<&String, ParseError>)
        ensures
            match *self {
                JsonValue::String(s) => r matches Ok(rs) && rs@ == s@,
                _ => r matches Err(e) && view_parse_error(e) == spec_incorrect_type(
                    ValueKind::String,
                    spec_value_kind(*self),
                ),
            },
    {
        match self {
            JsonValue::String(s) => Ok(s),
            other => Err(ParseError::incorrect_type(ValueKind::String, other.value_kind())),
        }
    }

    /// This value's number, or an `IncorrectType` error naming both numeric
    /// kinds as acceptable.
    pub fn expect_number(&self) -> (r: Result<JsonNumber, ParseError>)
        ensures
            match *self {
                JsonValue::Number(n) => r matches Ok(rn) && rn == n,
                _ => r matches Err(e) && view_parse_error(e) == spec_error(
                    ErrorKindV::IncorrectType {
                        expected: seq![ValueKind::Integer, ValueKind::Float],
                        found: spec_value_kind(*self),
                    },
                ),
            },
    {
        match self {
            JsonValue::Number(n) => Ok(*n),
            other => {
                let mut kinds: Vec<ValueKind> = Vec::new();
                kinds.push(ValueKind::Integer);
                kinds.push(ValueKind::Float);
                proof {
                    assert(kinds@ =~= seq![ValueKind::Integer, ValueKind::Float]);
                }
                Err(
                    ParseError::new(
                        ErrorKind::IncorrectType { expected: kinds, found: other.value_kind() },
                    ),
                )
            },
        }
    }

    /// This value's boolean, or an `IncorrectType` error.
    pub fn expect_bool(&self) -> (r: Result<bool, ParseError>)
        ensures
            match *self {
                JsonValue::Bool(b) => r matches Ok(rb) && rb == b,
                _ => r matches Err(e) && view_parse_error(e) == spec_incorrect_type(
                    ValueKind::Bool,
                    spec_value_kind(*self),
                ),
            },
    {
        match self {
            JsonValue::Bool(b) => Ok(*b),
            other => Err(ParseError::incorrect_type(ValueKind::Bool, other.value_kind())),
        }
    }
}

} // verus!
