//! Escaping of serialized JSON text into a `JSON.parse('...')` expression.
//!
//! Single quotes delimit the embedded string because the JSON text is itself
//! full of double quotes: with single quotes only backslash and single quote
//! ever need escaping.

use vstd::prelude::*;
use vstd::string::*;

use crate::Options;

verus! {

/// Serialized JavaScript output.
#[derive(Debug, Clone)]
pub struct Serialized(String);

impl View for Serialized {
    type V = Seq<char>;

    closed spec fn view(&self) -> Seq<char> {
        self.0@
    }
}

/// True of the two characters that must be escaped inside the single-quoted
/// string: backslash and single quote.
pub open spec fn needs_escape(c: char) -> bool {
    c == '\\' || c == '\''
}

/// The body of the single-quoted string literal: the input with one backslash
/// inserted before every backslash or single quote, all else untouched.
pub open spec fn escape_chars(s: Seq<char>) -> Seq<char>
    decreases s.len(),
{
    if s.len() == 0 {
        Seq::<char>::empty()
    } else {
        (if needs_escape(s[0]) {
            seq!['\\', s[0]]
        } else {
            seq![s[0]]
        }) + escape_chars(s.subrange(1, s.len() as int))
    }
}

/// JavaScript code (in the form of a second argument to `JSON.parse`) for the
/// reviver that freezes every parsed value bottom-up.
pub open spec fn freeze_reviver() -> Seq<char> {
    ",(_,v)=>Object.freeze(v)"@
}

/// The complete escaped literal expression: a `JSON.parse` call around the
/// escaped body, with the freeze reviver as a second argument when requested.
pub open spec fn escaped_literal(json: Seq<char>, freeze: bool) -> Seq<char> {
    "JSON.parse('"@ + escape_chars(json) + "'"@ + (if freeze {
        freeze_reviver()
    } else {
        Seq::<char>::empty()
    }) + ")"@
}

/// Escaping distributes over concatenation.
pub proof fn lemma_escape_chars_concat(a: Seq<char>, b: Seq<char>)
    ensures
        escape_chars(a + b) == escape_chars(a) + escape_chars(b),
    decreases a.len(),
{
    if a.len() == 0 {
        assert(a + b =~= b);
        assert(escape_chars(a) + escape_chars(b) =~= escape_chars(b));
    } else {
        assert((a + b).subrange(1, (a + b).len() as int) =~= a.subrange(1, a.len() as int) + b);
        lemma_escape_chars_concat(a.subrange(1, a.len() as int), b);
        assert((a + b)[0] == a[0]);
        assert(escape_chars(a + b) =~= escape_chars(a) + escape_chars(b));
    }
}

/// Text without backslashes or single quotes is left exactly as it is.
pub proof fn lemma_escape_chars_clean(s: Seq<char>)
    requires
        forall|k: int| 0 <= k < s.len() ==> !needs_escape(#[trigger] s[k]),
    ensures
        escape_chars(s) == s,
    decreases s.len(),
{
    if s.len() == 0 {
        assert(escape_chars(s) =~= s);
    } else {
        let rest = s.subrange(1, s.len() as int);
        assert(forall|k: int| 0 <= k < rest.len() ==> !needs_escape(#[trigger] rest[k]));
        lemma_escape_chars_clean(rest);
        assert(escape_chars(s) =~= s);
    }
}

/// A single escaped character becomes a backslash followed by the character.
pub proof fn lemma_escape_chars_unit(c: char)
    requires
        needs_escape(c),
    ensures
        escape_chars(seq![c]) == seq!['\\', c],
{
    let s = seq![c];
    assert(s.subrange(1, 1) =~= Seq::<char>::empty());
    assert(escape_chars(s.subrange(1, 1)) =~= Seq::<char>::empty());
    assert(escape_chars(s) =~= seq!['\\', c]);
}

/// Undoes the escaping: a backslash and its following character decode to that
/// character, any other character decodes to itself. This is how a JavaScript
/// engine reads the body of a single-quoted string built from backslash
/// escapes.
pub open spec fn unescape_chars(t: Seq<char>) -> Seq<char>
    decreases t.len(),
{
    if t.len() == 0 {
        Seq::<char>::empty()
    } else if t[0] == '\\' && t.len() >= 2 {
        seq![t[1]] + unescape_chars(t.subrange(2, t.len() as int))
    } else {
        seq![t[0]] + unescape_chars(t.subrange(1, t.len() as int))
    }
}

/// The body of a single-quoted string terminates exactly where intended: read
/// left to right, every backslash consumes a following character (so none
/// dangles before the closing quote) and no unconsumed single quote occurs.
pub open spec fn well_escaped(t: Seq<char>) -> bool
    decreases t.len(),
{
    if t.len() == 0 {
        true
    } else if t[0] == '\\' {
        t.len() >= 2 && well_escaped(t.subrange(2, t.len() as int))
    } else {
        t[0] != '\'' && well_escaped(t.subrange(1, t.len() as int))
    }
}

/// Round trip of the escaping layer: the escaped body never ends the
/// single-quoted string early, and decoding it as a JavaScript engine would
/// yields the original serialized text, character for character.
pub proof fn lemma_escape_round_trip(s: Seq<char>)
    ensures
        well_escaped(escape_chars(s)),
        unescape_chars(escape_chars(s)) == s,
    decreases s.len(),
{
    if s.len() == 0 {
    } else {
        let rest = s.subrange(1, s.len() as int);
        lemma_escape_round_trip(rest);
        let t = escape_chars(s);
        if needs_escape(s[0]) {
            let unit = seq!['\\', s[0]];
            assert(t == unit + escape_chars(rest));
            assert(t[0] == '\\');
            assert(t.len() >= 2);
            assert(t.subrange(2, t.len() as int) =~= escape_chars(rest));
            assert(t[1] == s[0]);
            assert(unescape_chars(t) =~= s);
        } else {
            let unit = seq![s[0]];
            assert(t == unit + escape_chars(rest));
            assert(t[0] == s[0]);
            assert(t[0] != '\\' && t[0] != '\'');
            assert(t.subrange(1, t.len() as int) =~= escape_chars(rest));
            assert(unescape_chars(t) =~= s);
        }
    }
}

/// Minimal escaping: on text without backslashes or single quotes the output
/// is exactly the `JSON.parse` call around the unchanged text.
pub proof fn lemma_minimal_escaping(s: Seq<char>)
    requires
        forall|k: int| 0 <= k < s.len() ==> !needs_escape(#[trigger] s[k]),
    ensures
        escaped_literal(s, false) == "JSON.parse('"@ + s + "')"@,
{
    lemma_escape_chars_clean(s);
    reveal_strlit("'");
    reveal_strlit(")");
    reveal_strlit("')");
    assert("'"@ + Seq::<char>::empty() + ")"@ =~= "')"@);
    assert(escaped_literal(s, false) =~= "JSON.parse('"@ + s + "')"@);
}

/// Freeze wrapping: the frozen output equals the unfrozen one with the reviver
/// argument inserted just before the closing parenthesis, and is otherwise
/// byte-identical.
pub proof fn lemma_freeze_wrapping(s: Seq<char>)
    ensures
        escaped_literal(s, true) == escaped_literal(s, false).subrange(
            0,
            escaped_literal(s, false).len() - 1,
        ) + freeze_reviver() + ")"@,
        escaped_literal(s, false).len() >= 1,
        escaped_literal(s, false)[escaped_literal(s, false).len() - 1] == ')',
{
    reveal_strlit(")");
    let base = escaped_literal(s, false);
    assert(base.len() >= 1);
    assert(base[base.len() - 1] == ')');
    assert(base.subrange(0, base.len() - 1) =~= "JSON.parse('"@ + escape_chars(s) + "'"@
        + Seq::<char>::empty());
    assert(escaped_literal(s, true) =~= base.subrange(0, base.len() - 1) + freeze_reviver()
        + ")"@);
}

/// The minimum capacity estimate for the output buffer: the fixed overhead of
/// the `JSON.parse('')` wrapper, the byte length of the JSON text (assuming
/// nothing needs escaping), the caller's extra buffer request, and the reviver
/// overhead when freezing.
pub open spec fn capacity_estimate(json_bytes: int, options: Options) -> int {
    "JSON.parse('"@.len() + "')"@.len() + json_bytes + options.buf + (if options.freeze {
        freeze_reviver().len() as int
    } else {
        0
    })
}

/// Relies on `String::with_capacity`: creates a new empty string with at least
/// the given capacity. It is documented to panic when the capacity exceeds
/// `isize::MAX` bytes, so such capacities are excluded.
#[verifier::external_body]
fn string_with_capacity(capacity: usize) -> (r: String)
    requires
        capacity <= isize::MAX as usize,
    ensures
        r@ == Seq::<char>::empty(),
{
    String::with_capacity(capacity)
}

/// Estimates the minimum capacity needed for the serialized string, counting
/// the wrapping JavaScript, the reviver when freezing, and the extra buffer
/// bytes from the passed [`Options`]. Saturates at `usize::MAX` where the true
/// sum would not fit; an under-estimate only costs a reallocation, never
/// correctness.
fn estimated_capacity(json: &str, options: &Options) -> (r: usize)
    ensures
        r as int == vstd::math::min(
            usize::MAX as int,
            capacity_estimate(json.len() as int, *options),
        ),
{
    proof {
        reveal_strlit("JSON.parse('");
        reveal_strlit("')");
        reveal_strlit(",(_,v)=>Object.freeze(v)");
    }
    // 14 bytes in JSON.parse('')
    let mut cap: usize = 14;

    // we know it's at least going to contain the length of the json
    cap = cap.saturating_add(json.len());

    // add in user defined extra buffer size
    cap = cap.saturating_add(options.buf);

    // freezing code expands the output size due to the embedded reviver code
    if options.freeze {
        cap = cap.saturating_add(24);
    }
    cap
}

/// Transforms and escapes JSON text into `JSON.parse('{json}')`.
///
/// A single left-to-right scan keeps the offset of the last character not yet
/// written out; at every backslash or single quote it writes the clean slice
/// gathered so far, one escaping backslash, and the character itself.
fn escape_json_parse(json: &str, options: &Options) -> (r: Serialized)
    ensures
        r@ == escaped_literal(json@, options.freeze),
{
    let capacity = estimated_capacity(json, options);
    // the capacity is only a hint: clamp an outlandish estimate rather than
    // exceed the allocator's limit
    let capacity = if capacity > (isize::MAX as usize) {
        isize::MAX as usize
    } else {
        capacity
    };
    let mut buf = string_with_capacity(capacity);
    buf.append("JSON.parse('");

    let n = json.unicode_len();
    let mut last: usize = 0;
    let mut i: usize = 0;
    while i < n
        invariant
            last <= i <= n,
            n == json@.len(),
            buf@ == "JSON.parse('"@ + escape_chars(json@.subrange(0, last as int)),
            forall|k: int| last <= k < i ==> !needs_escape(#[trigger] json@[k]),
        decreases n - i,
    {
        let c = json.get_char(i);
        if c == '\\' || c == '\'' {
            buf.append(json.substring_char(last, i));
            buf.append("\\");
            buf.append(json.substring_char(i, i + 1));
            proof {
                reveal_strlit("\\");
                let done = json@.subrange(0, last as int);
                let clean = json@.subrange(last as int, i as int);
                let unit = json@.subrange(i as int, i + 1);
                assert("\\"@ =~= seq!['\\']);
                assert(unit =~= seq![json@[i as int]]);
                lemma_escape_chars_clean(clean);
                lemma_escape_chars_unit(json@[i as int]);
                lemma_escape_chars_concat(done + clean, unit);
                lemma_escape_chars_concat(done, clean);
                assert(done + clean + unit =~= json@.subrange(0, i + 1));
                assert(buf@ =~= "JSON.parse('"@ + escape_chars(json@.subrange(0, i + 1)));
            }
            last = i + 1;
        }
        i = i + 1;
    }

    // finish appending the trailing json characters that don't need escaping
    buf.append(json.substring_char(last, n));

    // close out the escaped JavaScript string
    buf.append("'");

    // custom reviver to freeze all parsed values
    if options.freeze {
        buf.append(",(_,v)=>Object.freeze(v)");
    }

    // finish the JSON.parse() call
    buf.append(")");

    proof {
        let done = json@.subrange(0, last as int);
        let clean = json@.subrange(last as int, n as int);
        lemma_escape_chars_clean(clean);
        lemma_escape_chars_concat(done, clean);
        assert(done + clean =~= json@);
        assert(buf@ =~= escaped_literal(json@, options.freeze));
    }
    Serialized(buf)
}

impl Serialized {
    /// Wraps an already fully rendered string; only the crate's own renderer
    /// may vouch for one.
    pub(crate) fn from_rendered(s: String) -> (r: Serialized)
        ensures
            r@ == s@,
    {
        Serialized(s)
    }

    /// Create a new [`Serialized`] by escaping the given serialized JSON text
    /// under the given options.
    pub fn new(json: &str, options: &Options) -> (r: Serialized)
        ensures
            r@ == escaped_literal(json@, options.freeze),
    {
        escape_json_parse(json, options)
    }

    /// Get the inner [`String`] out.
    pub fn into_string(self) -> (r: String)
        ensures
            r@ == self@,
    {
        self.0
    }
}

} // verus!
