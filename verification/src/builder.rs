//! Serialization of field values and the builder that renders them.
//!
//! Field values are serialized by serde_json, exactly once per field and
//! render; the rendered texts are gathered into an ordered list before any
//! substitution begins. The first serialization failure aborts the render and
//! is surfaced to the caller verbatim.

use vstd::prelude::*;
use vstd::string::*;

use crate::escape::{escaped_literal, Serialized};
use crate::render::{render, render_chars, FieldKind, TemplateField};
use crate::Options;

verus! {

/// Declares serde_json's error type, so that it can be surfaced verbatim.
#[verifier::external_type_specification]
#[verifier::external_body]
pub struct ExError(serde_json::Error);

/// Relies on `serde_json::to_string`: serializes the value to its compact
/// JSON text, or reports why the value cannot be encoded (an unsupported
/// type, a map with non-string keys, a failing `Serialize` implementation).
#[verifier::external_body]
fn serialize_json<T: serde::Serialize + ?Sized>(value: &T) -> (r: Result<
    String,
    serde_json::Error,
>) {
    serde_json::to_string(value)
}

/// A serializable value that has been serialized exactly once.
pub struct SerializedOnce {
    json: String,
}

impl View for SerializedOnce {
    type V = Seq<char>;

    closed spec fn view(&self) -> Seq<char> {
        self.json@
    }
}

impl SerializedOnce {
    /// Serializes the value, exactly once; the error of the underlying
    /// encoder is handed back verbatim.
    pub fn try_from<T: serde::Serialize + ?Sized>(value: &T) -> (r: Result<
        SerializedOnce,
        serde_json::Error,
    >) {
        match serialize_json(value) {
            Ok(json) => Ok(SerializedOnce { json }),
            Err(e) => Err(e),
        }
    }

    /// Transform the serialized data into a valid JavaScript string literal
    /// expression.
    pub fn into_javascript_string_literal(self, options: &Options) -> (r: Serialized)
        ensures
            r@ == escaped_literal(self@, options.freeze),
    {
        Serialized::new(self.json.as_str(), options)
    }
}

/// Prevents implementation of the crate's render contract outside this crate.
pub trait Sealed {

}

/// Collects named fields in order and renders them into a template document.
///
/// Fields are serialized when they are added, so each field's value is read
/// exactly once per render however often its placeholder occurs. The first
/// serialization error stops all further work: later fields are not
/// serialized, and [`Builder::render`] returns that first error.
pub struct Builder {
    fields: Vec<TemplateField>,
    error: Option<serde_json::Error>,
}

impl Sealed for Builder {

}

impl Builder {
    /// The fields gathered so far, in the order they were added.
    pub closed spec fn spec_fields(&self) -> Seq<TemplateField> {
        self.fields@
    }

    /// The first serialization error encountered so far, if any.
    pub closed spec fn spec_error(&self) -> Option<serde_json::Error> {
        self.error
    }

    /// A builder with no fields and no error.
    pub fn new() -> (r: Builder)
        ensures
            r.spec_fields() == Seq::<TemplateField>::empty(),
            r.spec_error() is None,
    {
        Builder { fields: Vec::new(), error: None }
    }

    /// Appends a raw field: its text will be inserted verbatim wherever its
    /// placeholder occurs, with nothing escaped or altered. Skipped entirely
    /// when an earlier field already failed to serialize.
    pub fn add_raw_field(self, name: &str, value: &str) -> (r: Builder)
        ensures
            self.spec_error() is Some ==> r == self,
            self.spec_error() is None ==> {
                &&& r.spec_error() is None
                &&& r.spec_fields().len() == self.spec_fields().len() + 1
                &&& r.spec_fields().subrange(0, self.spec_fields().len() as int)
                    == self.spec_fields()
                &&& r.spec_fields().last().name@ == name@
                &&& r.spec_fields().last().kind == FieldKind::Raw
                &&& r.spec_fields().last().text@ == value@
            },
    {
        if self.error.is_some() {
            return self;
        }
        let mut fields = self.fields;
        fields.push(TemplateField { name: name.to_owned(), kind: FieldKind::Raw, text: value.to_owned() });
        proof {
            assert(fields@.subrange(0, fields@.len() - 1) =~= self.spec_fields());
        }
        Builder { fields, error: None }
    }

    /// Serializes the value exactly once and appends it as an escaped field:
    /// its placeholder will be replaced by the escaped `JSON.parse` literal
    /// built from the serialized text. When the value cannot be encoded the
    /// error is recorded and the fields are left as they were; skipped
    /// entirely when an earlier field already failed to serialize.
    pub fn add_escaped_field<T: serde::Serialize + ?Sized>(self, name: &str, value: &T) -> (r:
        Builder)
        ensures
            self.spec_error() is Some ==> r == self,
            self.spec_error() is None && r.spec_error() is None ==> {
                &&& r.spec_fields().len() == self.spec_fields().len() + 1
                &&& r.spec_fields().subrange(0, self.spec_fields().len() as int)
                    == self.spec_fields()
                &&& r.spec_fields().last().name@ == name@
                &&& r.spec_fields().last().kind == FieldKind::Escaped
            },
            self.spec_error() is None && r.spec_error() is Some ==> r.spec_fields()
                == self.spec_fields(),
    {
        if self.error.is_some() {
            return self;
        }
        match serialize_json(value) {
            Ok(text) => {
                let mut fields = self.fields;
                fields.push(TemplateField { name: name.to_owned(), kind: FieldKind::Escaped, text });
                proof {
                    assert(fields@.subrange(0, fields@.len() - 1) =~= self.spec_fields());
                }
                Builder { fields, error: None }
            },
            Err(e) => Builder { fields: self.fields, error: Some(e) },
        }
    }

    /// Renders the gathered fields into the document: the fully substituted
    /// document text, or the first serialization error encountered while the
    /// fields were added, in which case no partial output is returned.
    pub fn render(self, document: &str, options: &Options) -> (r: Result<
        Serialized,
        serde_json::Error,
    >)
        ensures
            self.spec_error() is None ==> r is Ok && r->Ok_0@ == render_chars(
                self.spec_fields(),
                document@,
                *options,
            ),
            self.spec_error() is Some ==> r is Err && r->Err_0 == self.spec_error()->0,
    {
        match self.error {
            Some(e) => Err(e),
            None => Ok(render(&self.fields, document, options)),
        }
    }
}

} // verus!
