//! Placeholder substitution of field values into a template document.
//!
//! The renderer only ever performs exact substring replacement: every
//! occurrence of a field's placeholder name is replaced, left to right and
//! without overlap, by the field's rendered text.

use vstd::prelude::*;
use vstd::string::*;

use crate::escape::{escaped_literal, Serialized};
use crate::Options;

verus! {

/// True when `pat` occurs in `text` starting at offset `i`.
pub open spec fn occurs_at(text: Seq<char>, pat: Seq<char>, i: int) -> bool {
    0 <= i && i + pat.len() <= text.len() && text.subrange(i, i + pat.len() as int) == pat
}

/// True when `pat` occurs somewhere in `text`.
pub open spec fn occurs(text: Seq<char>, pat: Seq<char>) -> bool {
    exists|i: int| occurs_at(text, pat, i)
}

/// Replacement of every occurrence of `pat` in `text` by `rep`: a single left
/// to right scan replaces each match and continues after it, so matches never
/// overlap. An empty pattern matches nothing and leaves the text unchanged.
pub open spec fn replace_all_chars(text: Seq<char>, pat: Seq<char>, rep: Seq<char>) -> Seq<char>
    decreases text.len(),
{
    if pat.len() == 0 || text.len() < pat.len() {
        text
    } else if text.subrange(0, pat.len() as int) == pat {
        rep + replace_all_chars(text.subrange(pat.len() as int, text.len() as int), pat, rep)
    } else {
        seq![text[0]] + replace_all_chars(text.subrange(1, text.len() as int), pat, rep)
    }
}

/// A text in which the pattern does not occur is left unchanged.
pub proof fn lemma_replace_absent(text: Seq<char>, pat: Seq<char>, rep: Seq<char>)
    requires
        !occurs(text, pat),
    ensures
        replace_all_chars(text, pat, rep) == text,
    decreases text.len(),
{
    if pat.len() == 0 || text.len() < pat.len() {
    } else {
        assert(!occurs_at(text, pat, 0));
        assert(text.subrange(0, pat.len() as int) != pat);
        let rest = text.subrange(1, text.len() as int);
        assert forall|i: int| !occurs_at(rest, pat, i) by {
            if occurs_at(rest, pat, i) {
                assert(text.subrange(i + 1, i + 1 + pat.len() as int) =~= rest.subrange(
                    i,
                    i + pat.len() as int,
                ));
                assert(occurs_at(text, pat, i + 1));
            }
        }
        lemma_replace_absent(rest, pat, rep);
        assert(replace_all_chars(text, pat, rep) =~= text);
    }
}

/// True when the characters of `text` starting at offset `i` are exactly `pat`.
fn matches_at(text: &str, i: usize, pat: &str) -> (r: bool)
    requires
        i + pat@.len() <= text@.len(),
        text@.len() <= usize::MAX,
    ensures
        r == occurs_at(text@, pat@, i as int),
{
    let m = pat.unicode_len();
    let mut j: usize = 0;
    while j < m
        invariant
            j <= m,
            m == pat@.len(),
            i + m <= text@.len() <= usize::MAX,
            forall|k: int| 0 <= k < j ==> text@[i + k] == pat@[k],
        decreases m - j,
    {
        if text.get_char(i + j) != pat.get_char(j) {
            proof {
                let sub = text@.subrange(i as int, i + m);
                assert(sub[j as int] != pat@[j as int]);
            }
            return false;
        }
        j = j + 1;
    }
    proof {
        assert(text@.subrange(i as int, i + m) =~= pat@);
    }
    true
}

/// Replaces every occurrence of `pat` in `text` by `rep`, left to right and
/// without overlap.
pub fn replace_all(text: &str, pat: &str, rep: &str) -> (r: String)
    ensures
        r@ == replace_all_chars(text@, pat@, rep@),
{
    let n = text.unicode_len();
    let m = pat.unicode_len();
    if m == 0 || n < m {
        proof {
            assert(replace_all_chars(text@, pat@, rep@) == text@);
        }
        return text.to_owned();
    }
    let mut out = String::new();
    let mut i: usize = 0;
    proof {
        assert(text@.subrange(0, n as int) =~= text@);
        assert(Seq::<char>::empty() + replace_all_chars(text@, pat@, rep@) =~= replace_all_chars(
            text@,
            pat@,
            rep@,
        ));
    }
    while i <= n - m
        invariant
            i <= n,
            1 <= m <= n,
            n == text@.len(),
            m == pat@.len(),
            replace_all_chars(text@, pat@, rep@) == out@ + replace_all_chars(
                text@.subrange(i as int, n as int),
                pat@,
                rep@,
            ),
        decreases n - i,
    {
        let ghost tail = text@.subrange(i as int, n as int);
        if matches_at(text, i, pat) {
            out.append(rep);
            proof {
                assert(tail.subrange(0, m as int) =~= text@.subrange(i as int, i + m));
                assert(tail.subrange(m as int, tail.len() as int) =~= text@.subrange(
                    i + m,
                    n as int,
                ));
            }
            i = i + m;
        } else {
            out.append(text.substring_char(i, i + 1));
            proof {
                assert(tail.subrange(0, m as int) =~= text@.subrange(i as int, i + m));
                assert(tail.subrange(1, tail.len() as int) =~= text@.subrange(i + 1, n as int));
                assert(text@.subrange(i as int, i + 1) =~= seq![tail[0]]);
            }
            i = i + 1;
        }
    }
    out.append(text.substring_char(i, n));
    proof {
        let tail = text@.subrange(i as int, n as int);
        assert(tail.len() < m);
        assert(replace_all_chars(tail, pat@, rep@) == tail);
    }
    out
}

/// How a field's value enters the document.
#[derive(Debug, Clone, Copy, PartialEq, Eq, Structural)]
pub enum FieldKind {
    /// The field's text is serialized JSON and is escaped into a
    /// `JSON.parse('...')` expression before substitution.
    Escaped,
    /// The field's text is inserted verbatim, without any serialization or
    /// escaping whatsoever. The caller alone is responsible for text that
    /// cannot break out of the surrounding document's syntax.
    Raw,
}

/// One named slot of a template: a field name, how the value enters the
/// document, and the value's text. For an [`FieldKind::Escaped`] field the
/// text is the value's serialized JSON; for a [`FieldKind::Raw`] field it is
/// the value's display text.
#[derive(Debug, Clone)]
pub struct TemplateField {
    /// The field's name; it must be unique within one render.
    pub name: String,
    /// Whether the text is escaped or inserted raw.
    pub kind: FieldKind,
    /// The field's text, produced exactly once per render.
    pub text: String,
}

/// The placeholder name a field of the given name and kind replaces: escaped
/// fields use one fixed prefix, raw fields a distinct one, both closed by a
/// fixed suffix, so the two families never collide for one field name.
pub open spec fn placeholder_chars(name: Seq<char>, kind: FieldKind) -> Seq<char> {
    match kind {
        FieldKind::Escaped => "__TEMPLATE_"@ + name + "__"@,
        FieldKind::Raw => "__RAW_"@ + name + "__"@,
    }
}

/// The text substituted for a field's placeholder: the raw text itself, or
/// the escaped literal built from the serialized JSON text.
pub open spec fn replacement_chars(field: TemplateField, options: Options) -> Seq<char> {
    match field.kind {
        FieldKind::Raw => field.text@,
        FieldKind::Escaped => escaped_literal(field.text@, options.freeze),
    }
}

/// The fully substituted document: for each field in order, every occurrence
/// of its placeholder is replaced by its rendered text, computed once per
/// field.
pub open spec fn render_chars(
    fields: Seq<TemplateField>,
    document: Seq<char>,
    options: Options,
) -> Seq<char>
    decreases fields.len(),
{
    if fields.len() == 0 {
        document
    } else {
        render_chars(
            fields.subrange(1, fields.len() as int),
            replace_all_chars(
                document,
                placeholder_chars(fields[0].name@, fields[0].kind),
                replacement_chars(fields[0], options),
            ),
            options,
        )
    }
}

/// The length of the placeholder prefix for the given kind.
pub open spec fn placeholder_prefix_len(kind: FieldKind) -> int {
    match kind {
        FieldKind::Escaped => "__TEMPLATE_"@.len() as int,
        FieldKind::Raw => "__RAW_"@.len() as int,
    }
}

/// A field name from which placeholder substitution is guaranteed not to
/// interfere with any other field's placeholder: nonempty, neither starting
/// nor ending with an underscore, and without two consecutive underscores.
/// (A field name that breaks these rules, such as `x__`, can make one
/// placeholder a substring of another.)
pub open spec fn well_formed_name(name: Seq<char>) -> bool {
    &&& name.len() > 0
    &&& name[0] != '_'
    &&& name[name.len() - 1] != '_'
    &&& forall|k: int|
        #![trigger name[k]]
        0 <= k < name.len() - 1 ==> !(name[k] == '_' && name[k + 1] == '_')
}

/// Two adjacent underscores inside a placeholder of a well-formed name stand
/// either at its very start or at the start of its closing suffix.
proof fn lemma_placeholder_underscore_pairs(name: Seq<char>, kind: FieldKind, k: int)
    requires
        well_formed_name(name),
        0 <= k,
        k + 1 < placeholder_chars(name, kind).len(),
        placeholder_chars(name, kind)[k] == '_',
        placeholder_chars(name, kind)[k + 1] == '_',
    ensures
        k == 0 || k == placeholder_prefix_len(kind) + name.len(),
{
    reveal_strlit("__TEMPLATE_");
    reveal_strlit("__RAW_");
    reveal_strlit("__");
    let p = placeholder_chars(name, kind);
    let pre = placeholder_prefix_len(kind);
    assert(p.len() == pre + name.len() + 2);
    if 0 < k < pre + name.len() {
        if k + 1 < pre {
            // both characters sit in the prefix, whose only adjacent pair of
            // underscores starts it
            assert(k == 0);
        } else if k + 1 == pre {
            // the prefix ends with an underscore but the name must not start
            // with one
            assert(p[k + 1] == name[0]);
            assert(false);
        } else if k + 1 < pre + name.len() {
            // both characters would be consecutive underscores of the name
            // itself, or its first one after the prefix underscore
            assert(p[k + 1] == name[k + 1 - pre]);
            if k >= pre {
                assert(p[k] == name[k - pre]);
                assert(false);
            } else {
                assert(false);
            }
        } else {
            // the first character would be the name's trailing character
            assert(p[k] == name[k - pre]);
            assert(k - pre == name.len() - 1);
            assert(false);
        }
    }
}

/// Placeholder disjointness: for two distinct fields with well-formed names,
/// one's placeholder never occurs inside the other's, not even partially, so
/// substituting one can never touch the other.
pub proof fn lemma_placeholder_disjoint(a: Seq<char>, ka: FieldKind, b: Seq<char>, kb: FieldKind)
    requires
        well_formed_name(a),
        well_formed_name(b),
        a != b || ka != kb,
    ensures
        !occurs(placeholder_chars(b, kb), placeholder_chars(a, ka)),
{
    reveal_strlit("__TEMPLATE_");
    reveal_strlit("__RAW_");
    reveal_strlit("__");
    let pa = placeholder_chars(a, ka);
    let pb = placeholder_chars(b, kb);
    let la = placeholder_prefix_len(ka);
    let lb = placeholder_prefix_len(kb);
    assert(pa.len() == la + a.len() + 2);
    assert(pb.len() == lb + b.len() + 2);
    assert forall|i: int| !occurs_at(pb, pa, i) by {
        if occurs_at(pb, pa, i) {
            assert forall|j: int| 0 <= j < pa.len() implies pa[j] == pb[i + j] by {
                assert(pa[j] == pb.subrange(i, i + pa.len() as int)[j]);
            }
            assert(pa[0] == '_' && pa[1] == '_');
            if i == 0 {
                if ka != kb {
                    // the two prefixes differ at their third character
                    assert(pa[2] != pb[2]);
                    assert(false);
                } else {
                    assert(la == lb);
                    assert(a.len() <= b.len());
                    if a.len() == b.len() {
                        assert forall|j: int| 0 <= j < a.len() implies a[j] == b[j] by {
                            assert(pa[la + j] == pb[la + j]);
                        }
                        assert(a =~= b);
                        assert(false);
                    } else {
                        // the first suffix underscore of the shorter
                        // placeholder meets the longer name's interior
                        assert(pa[la + a.len()] == '_');
                        assert(pb[la + a.len()] == b[a.len() as int]);
                        assert(b[a.len() as int] == '_');
                        assert(pa[la + a.len() + 1] == '_');
                        if a.len() + 1 < b.len() {
                            assert(pb[la + a.len() + 1] == b[a.len() as int + 1]);
                            assert(false);
                        } else {
                            assert(b[b.len() - 1] == '_');
                            assert(false);
                        }
                    }
                }
            } else {
                lemma_placeholder_underscore_pairs(b, kb, i);
                assert(i == lb + b.len());
                assert(i + pa.len() <= pb.len());
                assert(false);
            }
        }
    }
    if occurs(pb, pa) {
        let i = choose|i: int| occurs_at(pb, pa, i);
        assert(!occurs_at(pb, pa, i));
    }
}

/// Substituting one field's placeholder leaves any other field's placeholder
/// text exactly as it was, whatever the replacement text.
pub proof fn lemma_substitution_keeps_other_placeholder(
    a: Seq<char>,
    ka: FieldKind,
    b: Seq<char>,
    kb: FieldKind,
    rep: Seq<char>,
)
    requires
        well_formed_name(a),
        well_formed_name(b),
        a != b || ka != kb,
    ensures
        replace_all_chars(placeholder_chars(b, kb), placeholder_chars(a, ka), rep)
            == placeholder_chars(b, kb),
{
    lemma_placeholder_disjoint(a, ka, b, kb);
    lemma_replace_absent(placeholder_chars(b, kb), placeholder_chars(a, ka), rep);
}

/// Left-to-right replacement in full: the text before the first occurrence of
/// the pattern is copied unchanged, the occurrence itself becomes the
/// replacement, and the scan continues after it.
pub proof fn lemma_replace_first_at(text: Seq<char>, pat: Seq<char>, rep: Seq<char>, i0: int)
    requires
        pat.len() > 0,
        occurs_at(text, pat, i0),
        forall|k: int| 0 <= k < i0 ==> !occurs_at(text, pat, k),
    ensures
        replace_all_chars(text, pat, rep) == text.subrange(0, i0) + rep + replace_all_chars(
            text.subrange(i0 + pat.len() as int, text.len() as int),
            pat,
            rep,
        ),
    decreases i0,
{
    if i0 == 0 {
        assert(text.subrange(0, 0) =~= Seq::<char>::empty());
        assert(replace_all_chars(text, pat, rep) =~= text.subrange(0, 0) + rep
            + replace_all_chars(text.subrange(pat.len() as int, text.len() as int), pat, rep));
    } else {
        assert(!occurs_at(text, pat, 0));
        assert(text.subrange(0, pat.len() as int) != pat);
        let rest = text.subrange(1, text.len() as int);
        assert(rest.subrange(i0 - 1, i0 - 1 + pat.len() as int) =~= text.subrange(
            i0,
            i0 + pat.len() as int,
        ));
        assert(occurs_at(rest, pat, i0 - 1));
        assert forall|k: int| 0 <= k < i0 - 1 implies !occurs_at(rest, pat, k) by {
            if occurs_at(rest, pat, k) {
                assert(text.subrange(k + 1, k + 1 + pat.len() as int) =~= rest.subrange(
                    k,
                    k + pat.len() as int,
                ));
                assert(occurs_at(text, pat, k + 1));
            }
        }
        lemma_replace_first_at(rest, pat, rep, i0 - 1);
        assert(rest.subrange(0, i0 - 1) =~= text.subrange(1, i0));
        assert(rest.subrange(i0 - 1 + pat.len() as int, rest.len() as int) =~= text.subrange(
            i0 + pat.len() as int,
            text.len() as int,
        ));
        assert(replace_all_chars(text, pat, rep) =~= text.subrange(0, i0) + rep
            + replace_all_chars(
            text.subrange(i0 + pat.len() as int, text.len() as int),
            pat,
            rep,
        ));
    }
}

/// Even in a document of two distinct placeholders adjacent with no
/// separator, substituting the first field replaces exactly its own
/// placeholder and leaves the other's text untouched.
pub proof fn lemma_adjacent_placeholders(
    a: Seq<char>,
    ka: FieldKind,
    b: Seq<char>,
    kb: FieldKind,
    rep: Seq<char>,
)
    requires
        well_formed_name(a),
        well_formed_name(b),
        a != b || ka != kb,
    ensures
        replace_all_chars(
            placeholder_chars(a, ka) + placeholder_chars(b, kb),
            placeholder_chars(a, ka),
            rep,
        ) == rep + placeholder_chars(b, kb),
{
    reveal_strlit("__TEMPLATE_");
    reveal_strlit("__RAW_");
    reveal_strlit("__");
    let pa = placeholder_chars(a, ka);
    let pb = placeholder_chars(b, kb);
    assert(pa.len() > 0);
    assert((pa + pb).subrange(0, pa.len() as int) =~= pa);
    assert((pa + pb).subrange(pa.len() as int, (pa + pb).len() as int) =~= pb);
    lemma_substitution_keeps_other_placeholder(a, ka, b, kb, rep);
}

/// The same adjacent document, substituting the second field instead: its
/// placeholder occurs exactly once, after the first one, so the first
/// placeholder's text is left untouched.
pub proof fn lemma_adjacent_placeholders_reversed(
    a: Seq<char>,
    ka: FieldKind,
    b: Seq<char>,
    kb: FieldKind,
    rep: Seq<char>,
)
    requires
        well_formed_name(a),
        well_formed_name(b),
        a != b || ka != kb,
    ensures
        replace_all_chars(
            placeholder_chars(a, ka) + placeholder_chars(b, kb),
            placeholder_chars(b, kb),
            rep,
        ) == placeholder_chars(a, ka) + rep,
{
    reveal_strlit("__TEMPLATE_");
    reveal_strlit("__RAW_");
    reveal_strlit("__");
    let pa = placeholder_chars(a, ka);
    let pb = placeholder_chars(b, kb);
    let la = placeholder_prefix_len(ka);
    let doc = pa + pb;
    lemma_placeholder_disjoint(a, ka, b, kb);
    lemma_placeholder_disjoint(b, kb, a, ka);
    assert(doc.subrange(pa.len() as int, pa.len() + pb.len() as int) =~= pb);
    assert(occurs_at(doc, pb, pa.len() as int));
    assert forall|k: int| 0 <= k < pa.len() implies !occurs_at(doc, pb, k) by {
        if occurs_at(doc, pb, k) {
            assert forall|j: int| 0 <= j < pb.len() implies pb[j] == doc[k + j] by {
                assert(pb[j] == doc.subrange(k, k + pb.len() as int)[j]);
            }
            assert(pb[0] == '_' && pb[1] == '_' && pb[2] != '_');
            assert(doc[k] == '_' && doc[k + 1] == '_');
            if k + 1 < pa.len() {
                lemma_placeholder_underscore_pairs(a, ka, k);
                assert(k == 0 || k == la + a.len());
            }
            if k == 0 {
                // one placeholder would be a prefix of the other
                if pb.len() <= pa.len() {
                    assert(pa.subrange(0, pb.len() as int) =~= pb);
                    assert(occurs_at(pa, pb, 0));
                } else {
                    assert forall|j: int| 0 <= j < pa.len() implies pa[j] == pb[j] by {
                        assert(doc[j] == pa[j]);
                    }
                    assert(pb.subrange(0, pa.len() as int) =~= pa);
                    assert(occurs_at(pb, pa, 0));
                }
                assert(false);
            } else if k == la + a.len() {
                // the match would begin at the first placeholder's own suffix,
                // putting an underscore where the prefix names its kind
                assert(doc[k + 2] == pb[0]);
                assert(false);
            } else {
                // the match would begin at the suffix's second underscore
                assert(k == la + a.len() + 1);
                assert(doc[k + 2] == pb[1]);
                assert(false);
            }
        }
    }
    lemma_replace_first_at(doc, pb, rep, pa.len() as int);
    assert(doc.subrange(0, pa.len() as int) =~= pa);
    let tail = doc.subrange(pa.len() + pb.len() as int, doc.len() as int);
    assert(tail =~= Seq::<char>::empty());
    assert(replace_all_chars(tail, pb, rep) == tail);
    assert(pa + rep + Seq::<char>::empty() =~= pa + rep);
}

/// Builds the placeholder name for a field name and kind.
pub fn placeholder(name: &str, kind: FieldKind) -> (r: String)
    ensures
        r@ == placeholder_chars(name@, kind),
{
    let mut s = match kind {
        FieldKind::Escaped => "__TEMPLATE_".to_owned(),
        FieldKind::Raw => "__RAW_".to_owned(),
    };
    s.append(name);
    s.append("__");
    s
}

/// Renders the fields into the document: each field's text is computed once,
/// then every occurrence of its placeholder is replaced by it, field by field
/// in the caller's order. A placeholder that never occurs is simply left
/// alone, and placeholders left in the document are not an error.
pub fn render(fields: &Vec<TemplateField>, document: &str, options: &Options) -> (r: Serialized)
    ensures
        r@ == render_chars(fields@, document@, *options),
{
    let mut doc: String = document.to_owned();
    let mut idx: usize = 0;
    proof {
        assert(fields@.subrange(0, fields@.len() as int) =~= fields@);
    }
    while idx < fields.len()
        invariant
            idx <= fields@.len(),
            render_chars(fields@, document@, *options) == render_chars(
                fields@.subrange(idx as int, fields@.len() as int),
                doc@,
                *options,
            ),
        decreases fields@.len() - idx,
    {
        let field = &fields[idx];
        let ph = placeholder(field.name.as_str(), field.kind);
        let rep: String = match field.kind {
            FieldKind::Raw => field.text.clone(),
            FieldKind::Escaped => Serialized::new(field.text.as_str(), options).into_string(),
        };
        let new_doc = replace_all(doc.as_str(), ph.as_str(), rep.as_str());
        proof {
            let fs = fields@;
            let tail = fs.subrange(idx as int, fs.len() as int);
            assert(tail[0] == fs[idx as int]);
            assert(tail.subrange(1, tail.len() as int) =~= fs.subrange(
                idx + 1,
                fs.len() as int,
            ));
            assert(rep@ == replacement_chars(fs[idx as int], *options));
        }
        doc = new_doc;
        idx = idx + 1;
    }
    proof {
        assert(fields@.subrange(fields@.len() as int, fields@.len() as int)
            =~= Seq::<TemplateField>::empty());
    }
    Serialized::from_rendered(doc)
}

} // verus!
