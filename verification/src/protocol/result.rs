//! The result aggregate: a value/error container supporting partial success.
//!
//! Every multi-source operation in this crate reports its outcome as a
//! `ClientResult`, which is one of three canonical shapes: pure success
//! (value present, no errors), partial success (value present, errors
//! present), or pure failure (no value, at least one error).

use vstd::prelude::*;

verus! {

/// The kind of failure a client reports.
#[derive(Clone, Copy, Debug, PartialEq, Eq, Structural)]
pub enum ClientErrorKind {
    /// Transport or connectivity failure.
    Network,
    /// Non-success status from a backend.
    Response,
    /// Malformed or unexpected payload shape.
    Format,
    /// Usage errors: unrouteable identifier, unresolved key, missing input.
    Unknown,
}

/// An error reported by a client, carried inside a [`ClientResult`].
#[derive(Debug)]
pub struct ClientError {
    pub kind: ClientErrorKind,
    pub message: String,
}

impl ClientError {
    pub fn new(kind: ClientErrorKind, message: String) -> (r: ClientError)
        ensures
            r.kind == kind,
            r.message == message,
    {
        ClientError { kind, message }
    }

    /// The message as text, for callers that only display it.
    pub fn message_text(&self) -> (r: &str)
        ensures
            r@ == self.message@,
    {
        self.message.as_str()
    }
}

impl Clone for ClientError {
    fn clone(&self) -> (r: Self)
        ensures
            r == *self,
    {
        let r = ClientError { kind: self.kind, message: self.message.clone() };
        proof {
            assert(r == *self);
        }
        r
    }
}

/// The outcome of asking one or many sources for a value: a possible value
/// together with the errors met while producing it.
pub struct ClientResult<T> {
    value: Option<T>,
    errors: Vec<ClientError>,
}

impl<T> ClientResult<T> {
    /// A value without a value must carry at least one error; an "empty"
    /// outcome (no value, no errors) is not representable.
    #[verifier::type_invariant]
    spec fn inv(self) -> bool {
        self.value is None ==> self.errors@.len() >= 1
    }

    /// The value carried by this result, if any.
    pub closed spec fn spec_value(self) -> Option<T> {
        self.value
    }

    /// The errors carried by this result, in encounter order.
    pub closed spec fn spec_errors(self) -> Seq<ClientError> {
        self.errors@
    }

    /// A successful result carrying `value` and no errors.
    pub fn new_ok(value: T) -> (r: Self)
        ensures
            r.spec_value() == Some(value),
            r.spec_errors() =~= Seq::<ClientError>::empty(),
    {
        ClientResult { value: Some(value), errors: Vec::new() }
    }

    /// A failed result carrying exactly one error and no value.
    pub fn new_err(error: ClientError) -> (r: Self)
        ensures
            r.spec_value() is None,
            r.spec_errors() =~= seq![error],
    {
        let mut errors: Vec<ClientError> = Vec::new();
        errors.push(error);
        ClientResult { value: None, errors }
    }

    /// Builds a result from a possible value and an error list. Fails (with
    /// its inputs handed back) exactly when both are absent.
    pub fn from_parts(value: Option<T>, errors: Vec<ClientError>) -> (r: Result<
        Self,
        (Option<T>, Vec<ClientError>),
    >)
        ensures
            (value is None && errors@.len() == 0) <==> r is Err,
            r matches Ok(cr) ==> cr.spec_value() == value && cr.spec_errors() == errors@,
            r matches Err(p) ==> p.0 == value && p.1@ == errors@,
    {
        if value.is_none() && errors.len() == 0 {
            Err((value, errors))
        } else {
            Ok(ClientResult { value, errors })
        }
    }

    /// Whether any error occurred.
    pub fn has_errors(&self) -> (r: bool)
        ensures
            r == (self.spec_errors().len() > 0),
    {
        self.errors.len() > 0
    }

    /// Borrows the value, if present. A result never lacks both a value and
    /// errors, so an absent value comes with at least one error.
    pub fn value(&self) -> (r: Option<&T>)
        ensures
            r is Some <==> self.spec_value() is Some,
            r matches Some(v) ==> self.spec_value() == Some(*v),
            r is None ==> self.spec_errors().len() >= 1,
    {
        proof {
            use_type_invariant(self);
        }
        self.value.as_ref()
    }

    /// Borrows the error list.
    pub fn errors(&self) -> (r: &Vec<ClientError>)
        ensures
            r@ == self.spec_errors(),
    {
        &self.errors
    }

    /// Dismantles the result into its possible value and its errors.
    pub fn into_parts(self) -> (r: (Option<T>, Vec<ClientError>))
        ensures
            r.0 == self.spec_value(),
            r.1@ == self.spec_errors(),
            r.0 is None ==> r.1@.len() >= 1,
    {
        proof {
            use_type_invariant(&self);
        }
        let ClientResult { value, errors } = self;
        (value, errors)
    }
}

/// The single merge rule of the design, over the views of the two inputs:
/// errors concatenate in encounter order; values concatenate, except that the
/// merged value is absent when every contributor lacks one.
pub open spec fn merged_values<T>(a: Option<Seq<T>>, b: Option<Seq<T>>) -> Option<Seq<T>> {
    match (a, b) {
        (None, None) => None,
        (Some(x), None) => Some(x),
        (None, Some(y)) => Some(y),
        (Some(x), Some(y)) => Some(x + y),
    }
}

/// The view of an optional list value.
pub open spec fn opt_list_view<T>(v: Option<Vec<T>>) -> Option<Seq<T>> {
    match v {
        Some(x) => Some(x@),
        None => None,
    }
}

impl<T> ClientResult<Vec<T>> {
    /// The view of the carried value list, if any.
    pub open spec fn spec_value_view(self) -> Option<Seq<T>> {
        opt_list_view(self.spec_value())
    }

    /// Losslessly merges two aggregates: errors concatenate in encounter
    /// order; value lists concatenate unless both contributors lack one, in
    /// which case the merged value is absent too.
    pub fn merge(self, other: Self) -> (r: Self)
        ensures
            r.spec_errors() =~= self.spec_errors() + other.spec_errors(),
            r.spec_value_view() == merged_values(self.spec_value_view(), other.spec_value_view()),
    {
        let (v1, mut e1) = self.into_parts();
        let (v2, mut e2) = other.into_parts();
        let value = match (v1, v2) {
            (None, None) => None,
            (Some(x), None) => Some(x),
            (None, Some(y)) => Some(y),
            (Some(mut x), Some(mut y)) => {
                x.append(&mut y);
                Some(x)
            },
        };
        e1.append(&mut e2);
        ClientResult { value, errors: e1 }
    }
}

} // verus!
