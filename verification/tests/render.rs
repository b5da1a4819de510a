use serialize_to_javascript::{
    placeholder, render, replace_all, FieldKind, Options, TemplateField,
};

fn escaped(name: &str, json: &str) -> TemplateField {
    TemplateField {
        name: name.to_string(),
        kind: FieldKind::Escaped,
        text: json.to_string(),
    }
}

fn raw(name: &str, text: &str) -> TemplateField {
    TemplateField {
        name: name.to_string(),
        kind: FieldKind::Raw,
        text: text.to_string(),
    }
}

#[test]
fn replace_all_replaces_every_occurrence() {
    assert_eq!(replace_all("abcabca", "a", "XY"), "XYbcXYbcXY");
}

#[test]
fn replace_all_scans_left_to_right_without_overlap() {
    assert_eq!(replace_all("aaa", "aa", "b"), "ba");
}

#[test]
fn replace_all_with_absent_pattern_is_identity() {
    assert_eq!(replace_all("abc", "xyz", "!"), "abc");
}

#[test]
fn replace_all_with_empty_pattern_is_identity() {
    assert_eq!(replace_all("abc", "", "!"), "abc");
}

#[test]
fn placeholder_families() {
    assert_eq!(placeholder("my_field", FieldKind::Escaped), "__TEMPLATE_my_field__");
    assert_eq!(placeholder("my_field", FieldKind::Raw), "__RAW_my_field__");
}

#[test]
fn render_replaces_each_placeholder_with_its_escaped_literal() {
    let fields = vec![escaped("key", "\"asdf\"")];
    let out = render(&fields, "var key = __TEMPLATE_key__;", &Options::default()).into_string();
    assert_eq!(out, "var key = JSON.parse('\"asdf\"');");
}

#[test]
fn every_occurrence_gets_the_identical_replacement() {
    let fields = vec![escaped("v", "7")];
    let out = render(
        &fields,
        "__TEMPLATE_v__ + __TEMPLATE_v__ + __TEMPLATE_v__",
        &Options::default(),
    )
    .into_string();
    assert_eq!(out, "JSON.parse('7') + JSON.parse('7') + JSON.parse('7')");
}

#[test]
fn raw_bypass_inserts_text_verbatim() {
    let fields = vec![raw("cond", "1 < 2")];
    let out = render(&fields, "if (__RAW_cond__) {}", &Options::default()).into_string();
    assert_eq!(out, "if (1 < 2) {}");
}

#[test]
fn adjacent_placeholders_of_distinct_names_stay_disjoint() {
    // x and xy, adjacent with no separator
    let document = "__TEMPLATE_x____TEMPLATE_xy__";
    let fields = vec![escaped("x", "1"), escaped("xy", "2")];
    let out = render(&fields, document, &Options::default()).into_string();
    assert_eq!(out, "JSON.parse('1')JSON.parse('2')");

    // substituting only one of the two leaves the other placeholder intact
    let only_x = vec![escaped("x", "1")];
    let out = render(&only_x, document, &Options::default()).into_string();
    assert_eq!(out, "JSON.parse('1')__TEMPLATE_xy__");

    let only_xy = vec![escaped("xy", "2")];
    let out = render(&only_xy, document, &Options::default()).into_string();
    assert_eq!(out, "__TEMPLATE_x__JSON.parse('2')");
}

#[test]
fn substitution_order_of_disjoint_fields_does_not_matter() {
    let document = "__TEMPLATE_x____TEMPLATE_xy__";
    let forward = vec![escaped("x", "1"), escaped("xy", "2")];
    let backward = vec![escaped("xy", "2"), escaped("x", "1")];
    let options = Options::default();
    assert_eq!(
        render(&forward, document, &options).into_string(),
        render(&backward, document, &options).into_string()
    );
}

#[test]
fn raw_and_escaped_families_never_collide_for_one_name() {
    let document = "__TEMPLATE_f__ __RAW_f__";
    let fields = vec![escaped("f", "3"), raw("f", "three")];
    let out = render(&fields, document, &Options::default()).into_string();
    assert_eq!(out, "JSON.parse('3') three");
}

#[test]
fn unmatched_placeholders_are_left_in_the_document() {
    let fields = vec![escaped("present", "0")];
    let out = render(
        &fields,
        "__TEMPLATE_present__ __TEMPLATE_missing__",
        &Options::default(),
    )
    .into_string();
    assert_eq!(out, "JSON.parse('0') __TEMPLATE_missing__");
}

#[test]
fn render_with_no_fields_returns_the_document() {
    let fields: Vec<TemplateField> = Vec::new();
    let out = render(&fields, "nothing to do", &Options::default()).into_string();
    assert_eq!(out, "nothing to do");
}

#[test]
fn render_honours_the_freeze_option() {
    let fields = vec![escaped("k", "{}")];
    let out = render(
        &fields,
        "__TEMPLATE_k__",
        &Options { freeze: true, buf: 0 },
    )
    .into_string();
    assert_eq!(out, "JSON.parse('{}',(_,v)=>Object.freeze(v))");
}
