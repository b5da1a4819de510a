use std::cell::Cell;
use std::collections::BTreeMap;

use serialize_to_javascript::{Builder, Options, SerializedOnce};

/// A value whose serialization has an observable side effect: it counts how
/// often it is serialized.
struct Counted {
    value: u32,
    hits: Cell<u32>,
}

impl Counted {
    fn new(value: u32) -> Counted {
        Counted { value, hits: Cell::new(0) }
    }
}

impl serde::Serialize for Counted {
    fn serialize<S: serde::Serializer>(&self, serializer: S) -> Result<S::Ok, S::Error> {
        self.hits.set(self.hits.get() + 1);
        serializer.serialize_u32(self.value)
    }
}

/// A value that can never be serialized: JSON object keys must be strings.
fn unserializable() -> BTreeMap<(u8, u8), u8> {
    let mut map = BTreeMap::new();
    map.insert((1, 2), 3);
    map
}

#[test]
fn end_to_end_example() {
    let out = Builder::new()
        .add_escaped_field("key", "asdf")
        .add_escaped_field("length", &4usize)
        .add_raw_field("optional_script", "console.log('hi')")
        .render(
            "var key = __TEMPLATE_key__; var len = __TEMPLATE_length__; __RAW_optional_script__;",
            &Options::default(),
        )
        .unwrap()
        .into_string();
    assert_eq!(
        out,
        "var key = JSON.parse('\"asdf\"'); var len = JSON.parse('4'); console.log('hi');"
    );
}

#[test]
fn value_is_serialized_exactly_once_per_render() {
    let counter = Counted::new(9);
    let out = Builder::new()
        .add_escaped_field("n", &counter)
        .render(
            "__TEMPLATE_n__ __TEMPLATE_n__ __TEMPLATE_n__",
            &Options::default(),
        )
        .unwrap()
        .into_string();
    // three occurrences, one serialization, identical substituted text
    assert_eq!(out, "JSON.parse('9') JSON.parse('9') JSON.parse('9')");
    assert_eq!(counter.hits.get(), 1);
}

#[test]
fn first_serialization_error_is_returned_and_no_partial_output() {
    let result = Builder::new()
        .add_escaped_field("bad", &unserializable())
        .render("__TEMPLATE_bad__", &Options::default());
    assert!(result.is_err());
}

#[test]
fn serialization_error_short_circuits_remaining_fields() {
    let counter = Counted::new(1);
    let result = Builder::new()
        .add_escaped_field("bad", &unserializable())
        .add_escaped_field("late", &counter)
        .render("__TEMPLATE_bad__ __TEMPLATE_late__", &Options::default());
    assert!(result.is_err());
    // the field after the failure was never serialized
    assert_eq!(counter.hits.get(), 0);
}

#[test]
fn builder_with_no_fields_returns_the_document_unchanged() {
    let out = Builder::new()
        .render("no placeholders here", &Options::default())
        .unwrap()
        .into_string();
    assert_eq!(out, "no placeholders here");
}

#[test]
fn serialized_once_reports_encoder_errors() {
    assert!(SerializedOnce::try_from(&unserializable()).is_err());
}

#[test]
fn builder_renders_frozen_values() {
    let out = Builder::new()
        .add_escaped_field("cfg", &vec![1u8, 2u8])
        .render("const cfg = __TEMPLATE_cfg__;", &Options { freeze: true, buf: 0 })
        .unwrap()
        .into_string();
    assert_eq!(out, "const cfg = JSON.parse('[1,2]',(_,v)=>Object.freeze(v));");
}
