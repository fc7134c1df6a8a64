//! JSON texts: the notation of strings and the lookups in parsed documents.
use crate::text::{self, copy_str, join_strings};
use vstd::prelude::*;

verus! {

/// The hexadecimal digit, in lower case, of a number below sixteen.
pub open spec fn hex_digit(d: nat) -> char {
    if d < 10 {
        ('0' as nat + d) as char
    } else {
        ('a' as nat + (d - 10)) as char
    }
}

/// How one character is written inside a JSON string.
pub open spec fn json_char(c: char) -> Seq<char> {
    if c == '"' {
        seq!['\\', '"']
    } else if c == '\\' {
        seq!['\\', '\\']
    } else if c == '\u{8}' {
        seq!['\\', 'b']
    } else if c == '\t' {
        seq!['\\', 't']
    } else if c == '\n' {
        seq!['\\', 'n']
    } else if c == '\u{c}' {
        seq!['\\', 'f']
    } else if c == '\r' {
        seq!['\\', 'r']
    } else if (c as nat) <= 0x1f {
        seq!['\\', 'u', '0', '0', hex_digit(c as nat / 16), hex_digit(c as nat % 16)]
    } else {
        seq![c]
    }
}

/// How the characters of a text are written inside a JSON string.
pub open spec fn json_escaped(s: Seq<char>) -> Seq<char>
    decreases s.len(),
{
    if s.len() == 0 {
        Seq::empty()
    } else {
        json_escaped(s.drop_last()) + json_char(s.last())
    }
}

/// The JSON string that denotes a text.
pub open spec fn json_string(s: Seq<char>) -> Seq<char> {
    seq!['"'] + json_escaped(s) + seq!['"']
}

/// `serde_json::to_string` of a string: the JSON string that denotes it, in
/// double quotes, with `"`, `\` and the control characters below U+0020
/// escaped and every other character as it is. Writing a string to memory does
/// not fail.
#[verifier::external_body]
pub(crate) fn json_quote(s: &str) -> (r: String)
    ensures
        r@ == json_string(s@),
{
    serde_json::to_string(s).unwrap_or_default()
}

/// The JSON array of some JSON texts.
pub open spec fn json_array(items: Seq<Seq<char>>) -> Seq<char> {
    "["@ + text::join(items, ","@) + "]"@
}

/// The JSON array of some JSON texts.
pub fn array_of(items: &[String]) -> (r: String)
    ensures
        r@ == json_array(text::views(items@)),
{
    let mut s = copy_str("[");
    let inner = join_strings(items, ",");
    s.append(&inner);
    s.append("]");
    s
}

/// What a text is as a JSON document: its compact form, without insignificant
/// whitespace and with the keys of its objects in order; or the line and the
/// column, both from one, at which it stops to be a document.
pub uninterp spec fn parsed_json(s: Seq<char>) -> Result<Seq<char>, (usize, usize)>;

/// `serde_json::from_str` into a `serde_json::Value`: the value's `to_string`
/// where the text parses, and else the `line` and `column` of the error. The
/// result depends on the text alone.
#[verifier::external_body]
pub(crate) fn parse_json(s: &str) -> (r: Result<String, (usize, usize)>)
    ensures
        match r {
            Ok(t) => parsed_json(s@) == Ok::<Seq<char>, (usize, usize)>(t@),
            Err(at) => parsed_json(s@) == Err::<Seq<char>, (usize, usize)>(at),
        },
{
    match serde_json::from_str::<serde_json::Value>(s) {
        Ok(v) => Ok(v.to_string()),
        Err(e) => Err((e.line(), e.column())),
    }
}

/// A JSON document over several lines, with its parts indented.
pub uninterp spec fn pretty(s: Seq<char>) -> Seq<char>;

/// `serde_json::to_string_pretty` of the document that a text denotes, which is
/// `null` where it denotes none. The result depends on the text alone.
#[verifier::external_body]
pub(crate) fn pretty_json(s: &str) -> (r: String)
    ensures
        r@ == pretty(s@),
{
    let value: serde_json::Value = serde_json::from_str(s).unwrap_or_default();
    serde_json::to_string_pretty(&value).unwrap_or_default()
}

/// The JSON text that an object holds under a key, given the text of the object;
/// nothing where the text denotes no object or the object has no such key.
pub uninterp spec fn member(object: Seq<char>, key: Seq<char>) -> Option<Seq<char>>;

/// `serde_json::Value::get` on the document that a text denotes: the value's
/// `to_string`, where there is one under the key. The result depends on the two
/// texts alone.
#[verifier::external_body]
pub(crate) fn json_member(object: &str, key: &str) -> (r: Option<String>)
    ensures
        match r {
            Some(t) => member(object@, key@) == Some(t@),
            None => member(object@, key@) is None,
        },
{
    let value: serde_json::Value = serde_json::from_str(object).ok()?;
    value.get(key).map(|v| v.to_string())
}

/// The string that a JSON text denotes, or the message that it denotes none.
pub uninterp spec fn string_value(s: Seq<char>) -> Result<Seq<char>, Seq<char>>;

/// `serde_json::from_value` into a `String` of the document that a text denotes:
/// the string, or the message of the error. The result depends on the text
/// alone.
#[verifier::external_body]
pub(crate) fn read_string(s: &str) -> (r: Result<String, String>)
    ensures
        match r {
            Ok(t) => string_value(s@) == Ok::<Seq<char>, Seq<char>>(t@),
            Err(e) => string_value(s@) == Err::<Seq<char>, Seq<char>>(e@),
        },
{
    let value: serde_json::Value = serde_json::from_str(s).map_err(|e| e.to_string())?;
    serde_json::from_value::<String>(value).map_err(|e| e.to_string())
}

/// The truth value, if any, that a JSON text denotes, or the message that it
/// denotes something else.
pub uninterp spec fn flag_value(s: Seq<char>) -> Result<Option<bool>, Seq<char>>;

/// `serde_json::from_value` into an `Option<bool>` of the document that a text
/// denotes: the value, or the message of the error. The result depends on the
/// text alone.
#[verifier::external_body]
pub(crate) fn read_flag(s: &str) -> (r: Result<Option<bool>, String>)
    ensures
        match r {
            Ok(b) => flag_value(s@) == Ok::<Option<bool>, Seq<char>>(b),
            Err(e) => flag_value(s@) == Err::<Option<bool>, Seq<char>>(e@),
        },
{
    let value: serde_json::Value = serde_json::from_str(s).map_err(|e| e.to_string())?;
    serde_json::from_value::<Option<bool>>(value).map_err(|e| e.to_string())
}

/// The JSON text of an argument, given what the arguments of a call hold under
/// its name: `null` stands for an argument that is not there.
pub open spec fn or_null(found: Option<Seq<char>>) -> Seq<char> {
    match found {
        Some(t) => t,
        None => "null"@,
    }
}

/// The JSON text of an argument, given what the arguments of a call hold under
/// its name.
pub fn argument_text(found: Option<String>) -> (r: String)
    ensures
        r@ == or_null(crate::types::opt_view(found)),
{
    match found {
        Some(t) => t,
        None => copy_str("null"),
    }
}

// ---------------------------------------------------------------------------
// Reading
// ---------------------------------------------------------------------------

/// The number that a hexadecimal digit in lower case denotes.
pub open spec fn hex_value(c: char) -> Option<nat> {
    if '0' <= c <= '9' {
        Some((c as nat - '0' as nat) as nat)
    } else if 'a' <= c <= 'f' {
        Some((c as nat - 'a' as nat + 10) as nat)
    } else {
        None
    }
}

/// The character that a JSON string holds at an index, and the index after it:
/// one that stands for itself, or one that an escape stands for.
pub open spec fn read_char(s: Seq<char>, i: int) -> Option<(char, int)> {
    if i < 0 || i >= s.len() || s[i] == '"' {
        None
    } else if s[i] != '\\' {
        Some((s[i], i + 1))
    } else if i + 1 >= s.len() {
        None
    } else if s[i + 1] == '"' || s[i + 1] == '\\' || s[i + 1] == '/' {
        Some((s[i + 1], i + 2))
    } else if s[i + 1] == 'b' {
        Some(('\u{8}', i + 2))
    } else if s[i + 1] == 'f' {
        Some(('\u{c}', i + 2))
    } else if s[i + 1] == 'n' {
        Some(('\n', i + 2))
    } else if s[i + 1] == 'r' {
        Some(('\r', i + 2))
    } else if s[i + 1] == 't' {
        Some(('\t', i + 2))
    } else if s[i + 1] == 'u' && i + 5 < s.len() && s[i + 2] == '0' && s[i + 3] == '0' {
        match (hex_value(s[i + 4]), hex_value(s[i + 5])) {
            (Some(h), Some(l)) => Some(((16 * h + l) as char, i + 6)),
            _ => None,
        }
    } else {
        None
    }
}

/// The text of a JSON string from an index inside it up to its closing quote,
/// and the index after that quote.
pub open spec fn read_chars(s: Seq<char>, i: int) -> Option<(Seq<char>, int)>
    decreases s.len() - i,
{
    if i < 0 || i >= s.len() {
        None
    } else if s[i] == '"' {
        Some((Seq::empty(), i + 1))
    } else {
        match read_char(s, i) {
            None => None,
            Some((c, j)) => if j <= i {
                None
            } else {
                match read_chars(s, j) {
                    None => None,
                    Some((t, end)) => Some((seq![c] + t, end)),
                }
            },
        }
    }
}

/// The text of the JSON string that begins at an index, and the index after it.
pub open spec fn read_text(s: Seq<char>, i: int) -> Option<(Seq<char>, int)> {
    if 0 <= i < s.len() && s[i] == '"' {
        read_chars(s, i + 1)
    } else {
        None
    }
}

/// Where a value that begins at an index ends, after so many brackets were opened
/// in it: before the comma or the bracket that follows it.
pub open spec fn value_end(s: Seq<char>, i: int, depth: nat) -> Option<int>
    decreases s.len() - i,
{
    if i < 0 || i >= s.len() {
        None
    } else if s[i] == '"' {
        match read_text(s, i) {
            Some((_, end)) => if end <= i || end > s.len() {
                None
            } else {
                value_end(s, end, depth)
            },
            None => None,
        }
    } else if s[i] == '{' || s[i] == '[' {
        value_end(s, i + 1, depth + 1)
    } else if s[i] == '}' || s[i] == ']' {
        if depth == 0 {
            Some(i)
        } else {
            value_end(s, i + 1, (depth - 1) as nat)
        }
    } else if s[i] == ',' && depth == 0 {
        Some(i)
    } else {
        value_end(s, i + 1, depth)
    }
}

/// Where the value of a key begins in an object whose members from an index on are
/// looked at.
pub open spec fn find_member(s: Seq<char>, i: int, key: Seq<char>) -> Option<int>
    decreases s.len() - i,
{
    match read_text(s, i) {
        None => None,
        Some((k, j)) => if j <= i || j >= s.len() || s[j] != ':' {
            None
        } else if k == key {
            Some(j + 1)
        } else {
            match value_end(s, j + 1, 0) {
                Some(e) => if j < e < s.len() && s[e] == ',' {
                    find_member(s, e + 1, key)
                } else {
                    None
                },
                None => None,
            }
        },
    }
}

/// The value, as a JSON text, that an object without whitespace holds under a key.
pub open spec fn value_member(s: Seq<char>, key: Seq<char>) -> Option<Seq<char>> {
    if s.len() > 0 && s[0] == '{' {
        match find_member(s, 1, key) {
            Some(v) => match value_end(s, v, 0) {
                Some(e) => Some(s.subrange(v, e)),
                None => None,
            },
            None => None,
        }
    } else {
        None
    }
}

/// The text that an object without whitespace holds under a key.
pub open spec fn text_member(s: Seq<char>, key: Seq<char>) -> Option<Seq<char>> {
    match value_member(s, key) {
        Some(v) => match read_text(v, 0) {
            Some((t, end)) => if end == v.len() {
                Some(t)
            } else {
                None
            },
            None => None,
        },
        None => None,
    }
}

/// The items of an array without whitespace, each as a JSON text, from the index
/// on at which one begins.
pub open spec fn items_from(s: Seq<char>, i: int) -> Seq<Seq<char>>
    decreases s.len() - i,
{
    match value_end(s, i, 0) {
        Some(e) => if e < i || e >= s.len() {
            Seq::empty()
        } else if s[e] == ',' {
            seq![s.subrange(i, e)] + items_from(s, e + 1)
        } else {
            seq![s.subrange(i, e)]
        },
        None => Seq::empty(),
    }
}

/// The items of an array without whitespace, each as a JSON text.
pub open spec fn items(s: Seq<char>) -> Seq<Seq<char>> {
    if s.len() > 1 && s[0] == '[' && s[1] != ']' {
        items_from(s, 1)
    } else {
        Seq::empty()
    }
}

proof fn lemma_read_char(s: Seq<char>, i: int, c: char)
    requires
        0 <= i,
        i + json_char(c).len() <= s.len(),
        s.subrange(i, i + json_char(c).len()) == json_char(c),
    ensures
        read_char(s, i) == Some((c, i + json_char(c).len())),
{
    let e = json_char(c);
    assert forall|k: int| 0 <= k < e.len() implies s[i + k] == e[k] by {
        assert(s.subrange(i, i + e.len())[k] == s[i + k]);
    }
    assert(s[i + 0] == e[0]);
    if e.len() > 1 {
        assert(s[i + 1] == e[1]);
    }
    if e.len() == 6 {
        let n = c as nat;
        assert(s[i + 2] == e[2] && s[i + 3] == e[3] && s[i + 4] == e[4] && s[i + 5] == e[5]);
        assert(n / 16 <= 1 && n % 16 < 16);
        assert(hex_value(hex_digit(n / 16)) == Some(n / 16));
        assert(hex_value(hex_digit(n % 16)) == Some(n % 16));
        assert(16 * (n / 16) + n % 16 == n);
    }
}

proof fn lemma_escaped_first(t: Seq<char>)
    requires
        t.len() > 0,
    ensures
        json_escaped(t) == json_char(t[0]) + json_escaped(t.skip(1)),
    decreases t.len(),
{
    if t.len() == 1 {
        assert(t.drop_last() =~= Seq::empty());
        assert(t.skip(1) =~= Seq::empty());
        assert(Seq::<char>::empty() + json_char(t[0]) =~= json_char(t[0])
            + Seq::<char>::empty());
    } else {
        lemma_escaped_first(t.drop_last());
        assert(t.drop_last().skip(1) =~= t.skip(1).drop_last());
        assert(json_char(t[0]) + json_escaped(t.skip(1).drop_last()) + json_char(t.last())
            =~= json_char(t[0]) + (json_escaped(t.skip(1).drop_last()) + json_char(t.last())));
    }
}

proof fn lemma_read_chars(s: Seq<char>, i: int, t: Seq<char>)
    requires
        0 <= i,
        i + json_escaped(t).len() < s.len(),
        s.subrange(i, i + json_escaped(t).len()) == json_escaped(t),
        s[i + json_escaped(t).len()] == '"',
    ensures
        read_chars(s, i) == Some((t, i + json_escaped(t).len() + 1)),
    decreases t.len(),
{
    let e = json_escaped(t);
    if t.len() == 0 {
        assert(t =~= Seq::empty());
    } else {
        lemma_escaped_first(t);
        let a = json_char(t[0]);
        let b = json_escaped(t.skip(1));
        assert(s.subrange(i, i + a.len()) =~= a) by {
            assert forall|k: int| 0 <= k < a.len() implies s[i + k] == a[k] by {
                assert(s.subrange(i, i + e.len())[k] == s[i + k]);
                assert((a + b)[k] == a[k]);
            }
        }
        lemma_read_char(s, i, t[0]);
        assert(s[i] == s.subrange(i, i + a.len())[0]);
        let j = i + a.len();
        assert(s.subrange(j, j + b.len()) =~= b) by {
            assert forall|k: int| 0 <= k < b.len() implies s[j + k] == b[k] by {
                assert(s.subrange(i, i + e.len())[a.len() + k] == s[j + k]);
                assert((a + b)[a.len() + k] == b[k]);
            }
        }
        lemma_read_chars(s, j, t.skip(1));
        assert(seq![t[0]] + t.skip(1) =~= t);
    }
}

/// A JSON string denotes the text that it was made of: wherever it stands in a
/// document, what is read there is that text, and nothing of what follows.
pub proof fn law_json_strings_are_read_back(before: Seq<char>, t: Seq<char>, after: Seq<char>)
    ensures
        read_text(before + json_string(t) + after, before.len() as int) == Some(
            (t, (before.len() + json_string(t).len()) as int),
        ),
{
    let s = before + json_string(t) + after;
    let i = before.len() as int;
    let e = json_escaped(t);
    assert(s[i] == '"') by {
        assert(json_string(t)[0] == '"');
    }
    assert(s.subrange(i + 1, i + 1 + e.len()) =~= e);
    assert(s[i + 1 + e.len()] == '"') by {
        assert(json_string(t)[e.len() + 1int] == '"');
    }
    lemma_read_chars(s, i + 1, t);
}

/// Two texts have the same JSON string only where they are the same.
pub proof fn law_json_strings_differ(a: Seq<char>, b: Seq<char>)
    requires
        json_string(a) == json_string(b),
    ensures
        a == b,
{
    let none = Seq::<char>::empty();
    law_json_strings_are_read_back(none, a, none);
    law_json_strings_are_read_back(none, b, none);
}

proof fn lemma_plain_escaped(key: Seq<char>)
    requires
        forall|k: int|
            0 <= k < key.len() ==> (#[trigger] key[k]) != '"' && key[k] != '\\' && key[k] as nat
                > 0x1f,
    ensures
        json_escaped(key) == key,
    decreases key.len(),
{
    if key.len() > 0 {
        let t = key.drop_last();
        assert forall|k: int| 0 <= k < t.len() implies (#[trigger] t[k]) != '"' && t[k] != '\\'
            && t[k] as nat > 0x1f by {
            assert(t[k] == key[k]);
        }
        lemma_plain_escaped(t);
        assert(key.last() == key[key.len() - 1]);
        assert(json_char(key.last()) =~= seq![key.last()]);
        assert(t + seq![key.last()] =~= key);
    } else {
        assert(key =~= Seq::empty());
    }
}

/// A text that needs no escapes stands between quotes as it is.
pub proof fn lemma_plain_string(key: Seq<char>)
    requires
        forall|k: int|
            0 <= k < key.len() ==> (#[trigger] key[k]) != '"' && key[k] != '\\' && key[k] as nat
                > 0x1f,
    ensures
        json_string(key) == seq!['"'] + key + seq!['"'],
{
    lemma_plain_escaped(key);
}

/// Whether a text stands in another at an index.
pub open spec fn at(s: Seq<char>, i: int, t: Seq<char>) -> bool {
    0 <= i && i + t.len() <= s.len() && s.subrange(i, i + t.len()) == t
}

/// Whether a text may stand inside of a value, after so many brackets were opened
/// in it: the value does not end in it, and as many brackets are open after it.
#[verifier::opaque]
pub open spec fn passes(t: Seq<char>, depth: nat) -> bool {
    forall|s: Seq<char>, i: int| #[trigger]
        at(s, i, t) ==> value_end(s, i, depth) == value_end(s, i + t.len(), depth)
}

/// What stands in a text, stands where it stands with the text.
pub proof fn lemma_at_parts(s: Seq<char>, i: int, a: Seq<char>, b: Seq<char>)
    requires
        at(s, i, a + b),
    ensures
        at(s, i, a),
        at(s, i + a.len(), b),
{
    let t = s.subrange(i, i + (a + b).len());
    assert forall|k: int| 0 <= k < a.len() implies s[i + k] == a[k] by {
        assert(t[k] == s[i + k]);
    }
    assert forall|k: int| 0 <= k < b.len() implies s[i + a.len() + k] == b[k] by {
        assert(t[a.len() + k] == s[i + a.len() + k]);
    }
    assert(s.subrange(i, i + a.len()) =~= a);
    assert(s.subrange(i + a.len(), i + a.len() + b.len()) =~= b);
}

/// One text after the other passes where both do.
pub proof fn lemma_passes_both(a: Seq<char>, b: Seq<char>, depth: nat)
    requires
        passes(a, depth),
        passes(b, depth),
    ensures
        passes(a + b, depth),
{
    reveal(passes);
    assert forall|s: Seq<char>, i: int| #[trigger] at(s, i, a + b) implies value_end(s, i, depth)
        == value_end(s, i + (a + b).len(), depth) by {
        lemma_at_parts(s, i, a, b);
        assert(value_end(s, i, depth) == value_end(s, i + a.len(), depth));
        assert(value_end(s, i + a.len(), depth) == value_end(s, i + a.len() + b.len(), depth));
    }
}

/// A string is read where it stands.
pub proof fn lemma_string_at(s: Seq<char>, i: int, t: Seq<char>)
    requires
        at(s, i, json_string(t)),
    ensures
        read_text(s, i) == Some((t, i + json_string(t).len())),
        s[i] == '"',
{
    let q = json_string(t);
    law_json_strings_are_read_back(s.take(i), t, s.skip(i + q.len()));
    assert(s.take(i) + s.subrange(i, i + q.len()) + s.skip(i + q.len()) =~= s);
    assert(s[i] == s.subrange(i, i + q.len())[0]);
    assert(q[0] == '"');
}

/// A string passes.
pub proof fn lemma_passes_string(t: Seq<char>, depth: nat)
    ensures
        passes(json_string(t), depth),
{
    reveal(passes);
    let q = json_string(t);
    assert forall|s: Seq<char>, i: int| #[trigger] at(s, i, q) implies value_end(s, i, depth)
        == value_end(s, i + q.len(), depth) by {
        lemma_string_at(s, i, t);
    }
}

/// A character that is no quote and no bracket passes, and a comma inside of
/// brackets does.
pub proof fn lemma_passes_char(c: char, depth: nat)
    requires
        c != '"' && c != '{' && c != '[' && c != '}' && c != ']',
        c == ',' ==> depth > 0,
    ensures
        passes(seq![c], depth),
{
    reveal(passes);
    assert forall|s: Seq<char>, i: int| #[trigger] at(s, i, seq![c]) implies value_end(
        s,
        i,
        depth,
    ) == value_end(s, i + seq![c].len(), depth) by {
        assert(s[i] == s.subrange(i, i + 1)[0]);
    }
}

/// A text without quotes, brackets and commas passes.
pub proof fn lemma_passes_word(t: Seq<char>, depth: nat)
    requires
        forall|k: int|
            0 <= k < t.len() ==> (#[trigger] t[k]) != '"' && t[k] != '{' && t[k] != '[' && t[k]
                != '}' && t[k] != ']' && t[k] != ',',
    ensures
        passes(t, depth),
    decreases t.len(),
{
    if t.len() == 0 {
        assert(t =~= Seq::empty());
        lemma_passes_nothing(depth);
    } else {
        let u = t.drop_last();
        assert forall|k: int| 0 <= k < u.len() implies (#[trigger] u[k]) != '"' && u[k] != '{'
            && u[k] != '[' && u[k] != '}' && u[k] != ']' && u[k] != ',' by {
            assert(u[k] == t[k]);
        }
        lemma_passes_word(u, depth);
        assert(t.last() == t[t.len() - 1]);
        lemma_passes_char(t.last(), depth);
        lemma_passes_both(u, seq![t.last()], depth);
        assert(u + seq![t.last()] =~= t);
    }
}

/// What is in brackets passes where the text between them does.
pub proof fn lemma_passes_group(open: char, t: Seq<char>, close: char, depth: nat)
    requires
        open == '{' || open == '[',
        close == '}' || close == ']',
        passes(t, depth + 1),
    ensures
        passes(seq![open] + t + seq![close], depth),
{
    reveal(passes);
    let g = seq![open] + t + seq![close];
    assert forall|s: Seq<char>, i: int| #[trigger] at(s, i, g) implies value_end(s, i, depth)
        == value_end(s, i + g.len(), depth) by {
        lemma_at_parts(s, i, seq![open] + t, seq![close]);
        lemma_at_parts(s, i, seq![open], t);
        let j = i + 1;
        let k = i + 1 + t.len();
        assert(s[i] == s.subrange(i, i + 1)[0]);
        assert(s[k] == s.subrange(k, k + 1)[0]);
        assert(value_end(s, i, depth) == value_end(s, j, depth + 1));
        assert(value_end(s, j, depth + 1) == value_end(s, k, depth + 1));
        assert(value_end(s, k, depth + 1) == value_end(s, k + 1, depth));
    }
}

/// The empty text passes.
pub proof fn lemma_passes_nothing(depth: nat)
    ensures
        passes(Seq::empty(), depth),
{
    reveal(passes);
}

/// Some texts with commas between them pass inside of brackets, where each does.
pub proof fn lemma_passes_list(parts: Seq<Seq<char>>, depth: nat)
    requires
        depth > 0,
        forall|i: int| 0 <= i < parts.len() ==> passes(#[trigger] parts[i], depth),
    ensures
        passes(text::join(parts, seq![',']), depth),
    decreases parts.len(),
{
    if parts.len() == 0 {
        lemma_passes_nothing(depth);
    } else if parts.len() == 1 {
    } else {
        let t = parts.drop_last();
        assert forall|i: int| 0 <= i < t.len() implies passes(#[trigger] t[i], depth) by {
            assert(t[i] == parts[i]);
        }
        lemma_passes_list(t, depth);
        lemma_passes_char(',', depth);
        lemma_passes_both(text::join(t, seq![',']), seq![','], depth);
        assert(parts.last() == parts[parts.len() - 1]);
        lemma_passes_both(text::join(t, seq![',']) + seq![','], parts.last(), depth);
    }
}

/// A value under a key.
pub open spec fn keyed(key: Seq<char>, value: Seq<char>) -> Seq<char> {
    json_string(key) + seq![':'] + value
}

/// Some members of an object: the key and the value of each.
pub open spec fn keyed_all(members: Seq<(Seq<char>, Seq<char>)>) -> Seq<Seq<char>> {
    members.map_values(|m: (Seq<char>, Seq<char>)| keyed(m.0, m.1))
}

/// The object with some members.
pub open spec fn object_of(members: Seq<(Seq<char>, Seq<char>)>) -> Seq<char> {
    seq!['{'] + text::join(keyed_all(members), seq![',']) + seq!['}']
}

/// An object passes where its values do.
pub proof fn lemma_passes_object(members: Seq<(Seq<char>, Seq<char>)>, depth: nat)
    requires
        forall|i: int| 0 <= i < members.len() ==> passes((#[trigger] members[i]).1, depth + 1),
    ensures
        passes(object_of(members), depth),
{
    let parts = keyed_all(members);
    assert forall|i: int| 0 <= i < parts.len() implies passes(#[trigger] parts[i], depth + 1) by {
        let m = members[i];
        lemma_passes_string(m.0, depth + 1);
        lemma_passes_char(':', depth + 1);
        lemma_passes_both(json_string(m.0), seq![':'], depth + 1);
        lemma_passes_both(json_string(m.0) + seq![':'], m.1, depth + 1);
    }
    lemma_passes_list(parts, depth + 1);
    lemma_passes_group('{', text::join(parts, seq![',']), '}', depth);
}

/// An array passes where its items do.
pub proof fn lemma_passes_array(parts: Seq<Seq<char>>, depth: nat)
    requires
        forall|i: int| 0 <= i < parts.len() ==> passes(#[trigger] parts[i], depth + 1),
    ensures
        passes(json_array(parts), depth),
{
    lemma_array_text(parts);
    lemma_passes_list(parts, depth + 1);
    lemma_passes_group('[', text::join(parts, seq![',']), ']', depth);
}

proof fn lemma_array_text(parts: Seq<Seq<char>>)
    ensures
        json_array(parts) == seq!['['] + text::join(parts, seq![',']) + seq![']'],
{
    reveal_strlit("[");
    reveal_strlit("]");
    reveal_strlit(",");
    assert("["@ =~= seq!['[']);
    assert("]"@ =~= seq![']']);
    assert(","@ =~= seq![',']);
}

/// The first of some texts with commas between them, and the others.
proof fn lemma_join_first(parts: Seq<Seq<char>>)
    requires
        parts.len() > 0,
    ensures
        parts.len() == 1 ==> text::join(parts, seq![',']) == parts[0],
        parts.len() > 1 ==> text::join(parts, seq![',']) == parts[0] + (seq![','] + text::join(
            parts.skip(1),
            seq![','],
        )),
{
    if parts.len() > 1 {
        let first = seq![parts[0]];
        text::law_joining_is_piecewise(first, parts.skip(1), seq![',']);
        assert(first + parts.skip(1) =~= parts);
        let rest = text::join(parts.skip(1), seq![',']);
        assert(parts[0] + seq![','] + rest =~= parts[0] + (seq![','] + rest));
    }
}

proof fn lemma_find_member(
    s: Seq<char>,
    i: int,
    members: Seq<(Seq<char>, Seq<char>)>,
    n: int,
)
    requires
        0 <= n < members.len(),
        forall|k: int| 0 <= k < members.len() ==> passes((#[trigger] members[k]).1, 0),
        forall|k: int| 0 <= k < n ==> (#[trigger] members[k]).0 != members[n].0,
        at(s, i, text::join(keyed_all(members), seq![','])),
        i + text::join(keyed_all(members), seq![',']).len() < s.len(),
        s[i + text::join(keyed_all(members), seq![',']).len()] == '}',
    ensures
        find_member(s, i, members[n].0) matches Some(v) && value_end(s, v, 0) matches Some(e) && v
            <= e && s.subrange(v, e) == members[n].1,
    decreases members.len(),
{
    reveal(passes);
    let parts = keyed_all(members);
    let whole = text::join(parts, seq![',']);
    let (key, value) = members[0];
    let q = json_string(key);
    let head = q + seq![':'];
    lemma_join_first(parts);
    assert(parts[0] == head + value);
    let more = if members.len() > 1 {
        seq![','] + text::join(parts.skip(1), seq![','])
    } else {
        Seq::empty()
    };
    assert(whole =~= parts[0] + more);
    lemma_at_parts(s, i, parts[0], more);
    lemma_at_parts(s, i, head, value);
    lemma_at_parts(s, i, q, seq![':']);
    lemma_string_at(s, i, key);
    let j = i + q.len();
    assert(s[j] == s.subrange(j, j + 1)[0]);
    let v = j + 1;
    let e = v + value.len();
    assert(passes(members[0].1, 0));
    assert(at(s, v, value));
    assert(value_end(s, v, 0) == value_end(s, e, 0));
    if members.len() > 1 {
        lemma_at_parts(s, e, seq![','], text::join(parts.skip(1), seq![',']));
        assert(s[e] == s.subrange(e, e + 1)[0]);
    } else {
        assert(e == i + whole.len());
    }
    assert(value_end(s, v, 0) == Some(e));
    if n > 0 {
        let rest = members.skip(1);
        assert(keyed_all(rest) =~= parts.skip(1));
        assert forall|k: int| 0 <= k < rest.len() implies passes((#[trigger] rest[k]).1, 0) by {
            assert(rest[k] == members[k + 1]);
        }
        assert forall|k: int| 0 <= k < n - 1 implies (#[trigger] rest[k]).0 != rest[n - 1].0 by {
            assert(rest[k] == members[k + 1]);
        }
        assert(rest[n - 1] == members[n]);
        assert(members[0].0 != members[n].0);
        assert(e + 1 + text::join(parts.skip(1), seq![',']).len() == i + whole.len());
        lemma_find_member(s, e + 1, rest, n - 1);
    }
}

/// An object holds its values under their keys: what is read under the key of a
/// member is its value, where no member before it has the same key.
pub proof fn law_objects_are_read_back(members: Seq<(Seq<char>, Seq<char>)>, n: int)
    requires
        0 <= n < members.len(),
        forall|k: int| 0 <= k < members.len() ==> passes((#[trigger] members[k]).1, 0),
        forall|k: int| 0 <= k < n ==> (#[trigger] members[k]).0 != members[n].0,
    ensures
        value_member(object_of(members), members[n].0) == Some(members[n].1),
{
    let s = object_of(members);
    let inner = text::join(keyed_all(members), seq![',']);
    assert(s.subrange(1, 1int + inner.len()) =~= inner);
    assert(at(s, 1, inner));
    assert(s[1int + inner.len()] == '}');
    lemma_find_member(s, 1, members, n);
}

/// A text under a key is read as that text.
pub proof fn lemma_text_member(s: Seq<char>, key: Seq<char>, t: Seq<char>)
    requires
        value_member(s, key) == Some(json_string(t)),
    ensures
        text_member(s, key) == Some(t),
{
    let none = Seq::<char>::empty();
    law_json_strings_are_read_back(none, t, none);
    assert(none + json_string(t) + none =~= json_string(t));
}

proof fn lemma_items_from(s: Seq<char>, i: int, parts: Seq<Seq<char>>)
    requires
        parts.len() > 0,
        forall|k: int| 0 <= k < parts.len() ==> passes(#[trigger] parts[k], 0),
        at(s, i, text::join(parts, seq![','])),
        i + text::join(parts, seq![',']).len() < s.len(),
        s[i + text::join(parts, seq![',']).len()] == ']',
    ensures
        items_from(s, i) == parts,
    decreases parts.len(),
{
    reveal(passes);
    let whole = text::join(parts, seq![',']);
    lemma_join_first(parts);
    let first = parts[0];
    let more = if parts.len() > 1 {
        seq![','] + text::join(parts.skip(1), seq![','])
    } else {
        Seq::empty()
    };
    assert(whole =~= first + more);
    lemma_at_parts(s, i, first, more);
    let e = i + first.len();
    assert(passes(parts[0], 0));
    assert(value_end(s, i, 0) == value_end(s, e, 0));
    if parts.len() > 1 {
        lemma_at_parts(s, e, seq![','], text::join(parts.skip(1), seq![',']));
        assert(s[e] == s.subrange(e, e + 1)[0]);
        let rest = parts.skip(1);
        assert forall|k: int| 0 <= k < rest.len() implies passes(#[trigger] rest[k], 0) by {
            assert(rest[k] == parts[k + 1]);
        }
        assert(e + 1 + text::join(rest, seq![',']).len() == i + whole.len());
        lemma_items_from(s, e + 1, rest);
        assert(seq![first] + rest =~= parts);
    } else {
        assert(seq![first] =~= parts);
    }
}

/// An array holds its items in their order, and no others.
pub proof fn law_arrays_are_read_back(parts: Seq<Seq<char>>)
    requires
        forall|k: int| 0 <= k < parts.len() ==> passes(#[trigger] parts[k], 0),
        forall|k: int| 0 <= k < parts.len() ==> (#[trigger] parts[k]).len() > 0 && parts[k][0]
            != ']',
    ensures
        items(json_array(parts)) == parts,
{
    lemma_array_text(parts);
    let s = json_array(parts);
    let inner = text::join(parts, seq![',']);
    if parts.len() == 0 {
        assert(parts =~= Seq::empty());
    } else {
        lemma_join_first(parts);
        assert(s[1] == inner[0]);
        assert(inner[0] == parts[0][0]);
        assert(s.subrange(1, 1int + inner.len()) =~= inner);
        assert(at(s, 1, inner));
        assert(s[1int + inner.len()] == ']');
        lemma_items_from(s, 1, parts);
    }
}

/// What stands between the brackets of an object.
pub open spec fn inner(members: Seq<(Seq<char>, Seq<char>)>) -> Seq<char> {
    text::join(keyed_all(members), seq![','])
}

/// An object with one member.
pub proof fn lemma_inner_one(key: Seq<char>, value: Seq<char>)
    ensures
        inner(seq![(key, value)]) == json_string(key) + seq![':'] + value,
{
    assert(keyed_all(seq![(key, value)]) =~= seq![keyed(key, value)]);
}

/// An object with one member more.
pub proof fn lemma_inner_more(
    members: Seq<(Seq<char>, Seq<char>)>,
    key: Seq<char>,
    value: Seq<char>,
)
    requires
        members.len() > 0,
    ensures
        inner(members.push((key, value))) == inner(members) + (seq![','] + json_string(key) + seq![
            ':',
        ]) + value,
{
    let all = keyed_all(members.push((key, value)));
    assert(all.drop_last() =~= keyed_all(members));
    assert(all.last() == keyed(key, value));
    assert(inner(members) + seq![','] + (json_string(key) + seq![':'] + value) =~= inner(members) + (
    seq![','] + json_string(key) + seq![':']) + value);
}

/// Whether a text is a value, as far as its strings and brackets go, so that it may
/// stand anywhere in a document.
pub open spec fn is_value(t: Seq<char>) -> bool {
    forall|depth: nat| #[trigger] passes(t, depth)
}

/// A string, an object of values and an array of values are values.
pub proof fn law_values_are_made_of_values(
    t: Seq<char>,
    members: Seq<(Seq<char>, Seq<char>)>,
    parts: Seq<Seq<char>>,
)
    ensures
        is_value(json_string(t)),
        (forall|i: int| 0 <= i < members.len() ==> is_value((#[trigger] members[i]).1))
            ==> is_value(object_of(members)),
        (forall|i: int| 0 <= i < parts.len() ==> is_value(#[trigger] parts[i])) ==> is_value(
            json_array(parts),
        ),
{
    assert forall|depth: nat| #[trigger] passes(json_string(t), depth) by {
        lemma_passes_string(t, depth);
    }
    if forall|i: int| 0 <= i < members.len() ==> is_value((#[trigger] members[i]).1) {
        assert forall|depth: nat| #[trigger] passes(object_of(members), depth) by {
            assert forall|i: int| 0 <= i < members.len() implies passes(
                (#[trigger] members[i]).1,
                depth + 1,
            ) by {
                assert(is_value(members[i].1));
            }
            lemma_passes_object(members, depth);
        }
    }
    if forall|i: int| 0 <= i < parts.len() ==> is_value(#[trigger] parts[i]) {
        assert forall|depth: nat| #[trigger] passes(json_array(parts), depth) by {
            assert forall|i: int| 0 <= i < parts.len() implies passes(
                #[trigger] parts[i],
                depth + 1,
            ) by {
                assert(is_value(parts[i]));
            }
            lemma_passes_array(parts, depth);
        }
    }
}

/// What is found stands for itself, and what is not found for the value `null`.
pub proof fn law_missing_values_are_null(t: Seq<char>)
    ensures
        or_null(Some(t)) == t,
        or_null(None) == seq!['n', 'u', 'l', 'l'],
{
    reveal_strlit("null");
    assert("null"@ =~= seq!['n', 'u', 'l', 'l']);
}

} // verus!
