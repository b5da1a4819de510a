use serialize_to_javascript::{Options, Serialized, SerializedOnce};

#[test]
fn minimal_escaping_leaves_text_untouched() {
    // no backslash or single quote: the output is exactly the wrapped text
    let out = Serialized::new("\"foo\"", &Options::default()).into_string();
    assert_eq!(out, "JSON.parse('\"foo\"')");
}

#[test]
fn empty_text() {
    let out = Serialized::new("", &Options::default()).into_string();
    assert_eq!(out, "JSON.parse('')");
}

#[test]
fn escape_correctness() {
    // each of the two special characters is individually backslash-prefixed,
    // everything else is untouched
    let out = Serialized::new("a'b\\c", &Options::default()).into_string();
    assert_eq!(out, "JSON.parse('a\\'b\\\\c')");
}

#[test]
fn escapes_only_backslash_and_single_quote() {
    let out = Serialized::new("{\"a\": \"b'c\\\\d\"}", &Options::default()).into_string();
    assert_eq!(out, "JSON.parse('{\"a\": \"b\\'c\\\\\\\\d\"}')");
}

#[test]
fn multibyte_text_is_preserved() {
    let out = Serialized::new("\"héllo wörld ✓\"", &Options::default()).into_string();
    assert_eq!(out, "JSON.parse('\"héllo wörld ✓\"')");
}

#[test]
fn freeze_appends_reviver_before_closing_parenthesis() {
    let frozen = Serialized::new("1", &Options { freeze: true, buf: 0 }).into_string();
    assert_eq!(frozen, "JSON.parse('1',(_,v)=>Object.freeze(v))");
}

#[test]
fn freeze_output_is_identical_minus_the_reviver_suffix() {
    let options = Options::default();
    let plain = Serialized::new("[1,2]", &options).into_string();
    let frozen = Serialized::new("[1,2]", &Options { freeze: true, ..options }).into_string();
    assert_eq!(plain, "JSON.parse('[1,2]')");
    let mut expected = plain[..plain.len() - 1].to_string();
    expected.push_str(",(_,v)=>Object.freeze(v)");
    expected.push(')');
    assert_eq!(frozen, expected);
}

#[test]
fn extra_buffer_hint_does_not_change_output() {
    let small = Serialized::new("a'b", &Options { freeze: false, buf: 0 }).into_string();
    let large = Serialized::new("a'b", &Options { freeze: false, buf: 4096 }).into_string();
    assert_eq!(small, large);
}

#[test]
fn serialized_once_escapes_the_serialized_value() {
    // mirrors the crate documentation: a string value holding a single quote
    let once = SerializedOnce::try_from("foo'bar").unwrap();
    let out = once
        .into_javascript_string_literal(&Options::default())
        .into_string();
    assert_eq!(out, "JSON.parse('\"foo\\'bar\"')");
}

#[test]
fn serialized_output_can_be_cloned() {
    let s = Serialized::new("[true]", &Options::default());
    let t = s.clone();
    assert_eq!(s.into_string(), t.into_string());
}

#[test]
fn options_default_values() {
    let options = Options::default();
    assert!(!options.freeze);
    assert_eq!(options.buf, 0);
}
