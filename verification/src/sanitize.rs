//! Cleaning what a model wants to write before it reaches a file.
use crate::text::{
    self, chars_eq, copy_str, decimal_usize, from_chars, lines_chars, starts_with_chars,
    sub_chars, to_chars, trim_chars, trim_end_chars, trim_start_chars,
};
use vstd::prelude::*;

verus! {

/// Why a content is not written.
#[derive(Debug, PartialEq, Eq, Clone, Copy)]
pub enum SanitizeError {
    /// There is nothing but blank lines.
    EmptyContent,
    /// There is a replacement character: the output of the model is broken.
    ReplacementChar {
        /// Its index among the characters of the content, from zero.
        position: usize,
    },
    /// A comment is followed by code without a break between them.
    CommentGlued {
        /// The number of the comment's line in the content, from one.
        line: usize,
    },
}

impl SanitizeError {
    /// The message of the error.
    pub open spec fn message(self) -> Seq<char> {
        match self {
            SanitizeError::EmptyContent => "new_string is empty (only blank lines)"@,
            SanitizeError::ReplacementChar { position } => {
                "new_string contains U+FFFB replacement character at char offset "@
                    + text::decimal(position as nat)
            },
            SanitizeError::CommentGlued { line } => "comment glued to code at line "@
                + text::decimal(line as nat),
        }
    }

    /// The message of the error.
    pub fn to_string(&self) -> (r: String)
        ensures
            r@ == self.message(),
    {
        match self {
            SanitizeError::EmptyContent => copy_str("new_string is empty (only blank lines)"),
            SanitizeError::ReplacementChar { position } => {
                let mut s = copy_str(
                    "new_string contains U+FFFB replacement character at char offset ",
                );
                let n = decimal_usize(*position);
                s.append(&n);
                s
            },
            SanitizeError::CommentGlued { line } => {
                let mut s = copy_str("comment glued to code at line ");
                let n = decimal_usize(*line);
                s.append(&n);
                s
            },
        }
    }
}

/// A text without the line feeds and carriage returns at its beginning.
pub open spec fn strip_breaks(s: Seq<char>) -> Seq<char>
    decreases s.len(),
{
    if s.len() > 0 && (s[0] == '\n' || s[0] == '\r') {
        strip_breaks(s.skip(1))
    } else {
        s
    }
}

/// The text without the blank lines at its beginning, unless nothing is left.
pub fn strip_leading_blank_lines(s: &str) -> (r: Result<String, SanitizeError>)
    ensures
        match r {
            Ok(t) => t@ == strip_breaks(s@) && t@.len() > 0,
            Err(e) => strip_breaks(s@).len() == 0 && e == SanitizeError::EmptyContent,
        },
{
    let v = to_chars(s);
    let mut n: usize = 0;
    assert(v@.skip(0) =~= v@);
    while n < v.len() && (v[n] == '\n' || v[n] == '\r')
        invariant
            n <= v@.len(),
            v@ == s@,
            strip_breaks(s@) == strip_breaks(v@.skip(n as int)),
        decreases v@.len() - n,
    {
        assert(v@.skip(n as int)[0] == v@[n as int]);
        assert(v@.skip(n as int).skip(1) =~= v@.skip(n + 1));
        n += 1;
    }
    assert(n < v@.len() ==> v@.skip(n as int)[0] == v@[n as int]);
    if n == v.len() {
        return Err(SanitizeError::EmptyContent);
    }
    let rest = sub_chars(&v, n, v.len());
    assert(rest@ =~= v@.skip(n as int));
    Ok(from_chars(&rest))
}

/// A character that stands for one that was lost: U+FFFD, or U+FFFB, which
/// models write in its place.
pub open spec fn is_replacement(c: char) -> bool {
    c == '\u{FFFD}' || c == '\u{FFFB}'
}

/// The index of the first replacement character from index `i` on.
pub open spec fn first_replacement(s: Seq<char>, i: int) -> Option<int>
    decreases s.len() - i,
{
    if i < 0 || i >= s.len() {
        None
    } else if is_replacement(s[i]) {
        Some(i)
    } else {
        first_replacement(s, i + 1)
    }
}

/// Whether there is no replacement character, and else where the first one is.
pub fn check_replacement_char(s: &str) -> (r: Result<(), SanitizeError>)
    ensures
        match r {
            Ok(_) => first_replacement(s@, 0) is None,
            Err(e) => e matches SanitizeError::ReplacementChar { position }
                && first_replacement(s@, 0) == Some(position as int),
        },
{
    let v = to_chars(s);
    let mut i: usize = 0;
    while i < v.len()
        invariant
            i <= v@.len(),
            v@ == s@,
            first_replacement(s@, 0) == first_replacement(s@, i as int),
        decreases v@.len() - i,
    {
        if v[i] == '\u{FFFD}' || v[i] == '\u{FFFB}' {
            return Err(SanitizeError::ReplacementChar { position: i });
        }
        i += 1;
    }
    Ok(())
}

/// Whether a line without leading whitespace begins a comment.
pub open spec fn begins_comment(t: Seq<char>) -> bool {
    "//"@.is_prefix_of(t) || "#"@.is_prefix_of(t)
}

/// Whether a text ends with another.
pub open spec fn ends_with(s: Seq<char>, pat: Seq<char>) -> bool {
    pat.len() <= s.len() && s.skip(s.len() - pat.len()) == pat
}

/// Whether a line is a comment that is glued to the line after it: it begins a
/// comment, does not end one, and the next line is neither blank nor a comment.
pub open spec fn glued(line: Seq<char>, next: Seq<char>) -> bool {
    &&& begins_comment(text::trim_start(line))
    &&& !ends_with(text::trim_end(line), "*/"@)
    &&& text::trim(next).len() > 0
    &&& !begins_comment(text::trim(next))
}

/// The index of the first line from index `i` on that is glued to its successor.
pub open spec fn first_glued(lines: Seq<Seq<char>>, i: int) -> Option<int>
    decreases lines.len() - i,
{
    if i < 0 || i + 1 >= lines.len() {
        None
    } else if glued(lines[i], lines[i + 1]) {
        Some(i)
    } else {
        first_glued(lines, i + 1)
    }
}

/// Whether a line without leading whitespace begins a comment.
fn is_comment_start(t: &[char]) -> (r: bool)
    ensures
        r == begins_comment(t@),
{
    let slashes = to_chars("//");
    let hash = to_chars("#");
    starts_with_chars(t, &slashes) || starts_with_chars(t, &hash)
}

/// Whether a line is a comment that is glued to the line after it.
fn is_glued(line: &[char], next: &[char]) -> (r: bool)
    ensures
        r == glued(line@, next@),
{
    let head = trim_start_chars(line);
    if !is_comment_start(&head) {
        return false;
    }
    let tail = trim_end_chars(line);
    let end = to_chars("*/");
    let closed = if tail.len() >= end.len() {
        let last = sub_chars(&tail, tail.len() - end.len(), tail.len());
        assert(last@ =~= tail@.skip(tail@.len() - end@.len()));
        chars_eq(&last, &end)
    } else {
        false
    };
    if closed {
        return false;
    }
    let t = trim_chars(next);
    t.len() > 0 && !is_comment_start(&t)
}

/// Whether no comment is glued to code, and else the line of the first one.
pub fn check_comment_glued(s: &str) -> (r: Result<(), SanitizeError>)
    ensures
        match r {
            Ok(_) => first_glued(text::lines(s@), 0) is None,
            Err(e) => e matches SanitizeError::CommentGlued { line } && line >= 1 && first_glued(
                text::lines(s@),
                0,
            ) == Some(line - 1),
        },
{
    let v = to_chars(s);
    let lines = lines_chars(&v);
    let ghost all = text::lines(s@);
    let mut i: usize = 0;
    while i < lines.len() && lines.len() - i > 1
        invariant
            i <= lines@.len(),
            all == text::lines(s@),
            all == text::chars_views(lines@),
            first_glued(all, 0) == first_glued(all, i as int),
        decreases lines@.len() - i,
    {
        assert(all[i as int] == lines@[i as int]@);
        assert(all[i + 1] == lines@[i + 1]@);
        if is_glued(&lines[i], &lines[i + 1]) {
            return Err(SanitizeError::CommentGlued { line: i + 1 });
        }
        i += 1;
    }
    Ok(())
}

/// Number of line feeds and carriage returns at the beginning of a text.
pub open spec fn leading_breaks(s: Seq<char>) -> int {
    s.len() - strip_breaks(s).len()
}

/// Number of line feeds in a text.
pub open spec fn line_feeds(s: Seq<char>) -> nat
    decreases s.len(),
{
    if s.len() == 0 {
        0
    } else {
        line_feeds(s.drop_last()) + (if s.last() == '\n' {
            1nat
        } else {
            0nat
        })
    }
}

/// What becomes of a content before it is written: the blank lines at its
/// beginning go; a content that is empty then, holds a replacement character or
/// has a comment glued to code is refused. Places are those in the content as
/// it was given, with the blank lines.
pub open spec fn sanitized(content: Seq<char>) -> Result<Seq<char>, SanitizeError> {
    let t = strip_breaks(content);
    let gone = leading_breaks(content);
    if t.len() == 0 {
        Err(SanitizeError::EmptyContent)
    } else {
        match first_replacement(t, 0) {
            Some(i) => Err(SanitizeError::ReplacementChar { position: (gone + i) as usize }),
            None => match first_glued(text::lines(t), 0) {
                Some(i) => Err(
                    SanitizeError::CommentGlued {
                        line: (line_feeds(content.take(gone)) + i + 1) as usize,
                    },
                ),
                None => Ok(t),
            },
        }
    }
}

/// Cleans the content of a whole file.
pub fn sanitize_write_content(content: &str) -> (r: Result<String, SanitizeError>)
    ensures
        match r {
            Ok(s) => sanitized(content@) == Ok::<Seq<char>, SanitizeError>(s@),
            Err(e) => sanitized(content@) == Err::<Seq<char>, SanitizeError>(e),
        },
{
    let s = match strip_leading_blank_lines(content) {
        Err(e) => {
            return Err(e);
        },
        Ok(s) => s,
    };
    let (gone, feeds) = count_breaks(content);
    if let Err(e) = check_replacement_char(&s) {
        return match e {
            SanitizeError::ReplacementChar { position } => {
                proof {
                    lemma_first_replacement(s@, 0);
                }
                Err(SanitizeError::ReplacementChar { position: gone + position })
            },
            other => Err(other),
        };
    }
    if let Err(e) = check_comment_glued(&s) {
        return match e {
            SanitizeError::CommentGlued { line } => {
                proof {
                    lemma_first_glued(text::lines(s@), 0);
                    text::lemma_lines_len(s@, 0);
                }
                Err(SanitizeError::CommentGlued { line: feeds + line })
            },
            other => Err(other),
        };
    }
    Ok(s)
}

/// Number of line feeds and carriage returns at the beginning of a text, and
/// how many of them are line feeds. What follows them still fits.
fn count_breaks(s: &str) -> (r: (usize, usize))
    ensures
        r.0 == leading_breaks(s@),
        r.1 == line_feeds(s@.take(r.0 as int)),
        r.1 <= r.0,
        r.0 + strip_breaks(s@).len() <= usize::MAX,
{
    let v = to_chars(s);
    let len: usize = v.len();
    let mut n: usize = 0;
    let mut feeds: usize = 0;
    assert(v@.skip(0) =~= v@);
    while n < len && (v[n] == '\n' || v[n] == '\r')
        invariant
            n <= len == v@.len(),
            v@ == s@,
            strip_breaks(s@) == strip_breaks(v@.skip(n as int)),
            feeds == line_feeds(s@.take(n as int)),
            feeds <= n,
        decreases len - n,
    {
        proof {
            assert(v@.skip(n as int)[0] == v@[n as int]);
            assert(v@.skip(n as int).skip(1) =~= v@.skip(n + 1));
            assert(s@.take(n + 1).drop_last() =~= s@.take(n as int));
            assert(s@.take(n + 1).last() == v@[n as int]);
        }
        if v[n] == '\n' {
            feeds += 1;
        }
        n += 1;
    }
    assert(n < len ==> v@.skip(n as int)[0] == v@[n as int]);
    (n, feeds)
}

proof fn lemma_first_replacement(s: Seq<char>, i: int)
    requires
        0 <= i,
    ensures
        first_replacement(s, i) matches Some(k) ==> i <= k < s.len(),
    decreases s.len() - i,
{
    if i < s.len() && !is_replacement(s[i]) {
        lemma_first_replacement(s, i + 1);
    }
}

proof fn lemma_first_glued(lines: Seq<Seq<char>>, i: int)
    requires
        0 <= i,
    ensures
        first_glued(lines, i) matches Some(k) ==> i <= k < lines.len() - 1,
    decreases lines.len() - i,
{
    if i + 1 < lines.len() && !glued(lines[i], lines[i + 1]) {
        lemma_first_glued(lines, i + 1);
    }
}

/// Cleans the new text of an edit. The old text stays as it is, since it has to
/// match the file.
pub fn sanitize_edit_content(old_string: &str, new_string: &str) -> (r: Result<
    (String, String),
    SanitizeError,
>)
    ensures
        match r {
            Ok(p) => p.0@ == old_string@ && sanitized(new_string@) == Ok::<
                Seq<char>,
                SanitizeError,
            >(p.1@),
            Err(e) => sanitized(new_string@) == Err::<Seq<char>, SanitizeError>(e),
        },
{
    match sanitize_write_content(new_string) {
        Ok(s) => Ok((copy_str(old_string), s)),
        Err(e) => Err(e),
    }
}

/// Cleaning is done once and for all: a content that was cleaned passes
/// unchanged.
pub proof fn law_sanitizing_is_idempotent(content: Seq<char>)
    ensures
        sanitized(content) matches Ok(s) ==> sanitized(s) == Ok::<Seq<char>, SanitizeError>(s),
{
    lemma_strip_idempotent(content);
}

proof fn lemma_strip_idempotent(s: Seq<char>)
    ensures
        strip_breaks(strip_breaks(s)) == strip_breaks(s),
    decreases s.len(),
{
    if s.len() > 0 && (s[0] == '\n' || s[0] == '\r') {
        lemma_strip_idempotent(s.skip(1));
    }
}

/// A content that passes holds no replacement character anywhere.
pub proof fn law_passed_content_is_whole(content: Seq<char>, i: int)
    requires
        sanitized(content) is Ok,
        0 <= i < strip_breaks(content).len(),
    ensures
        !is_replacement(strip_breaks(content)[i]),
{
    lemma_no_replacement(strip_breaks(content), 0, i);
}

proof fn lemma_no_replacement(s: Seq<char>, from: int, i: int)
    requires
        0 <= from <= i < s.len(),
        first_replacement(s, from) is None,
    ensures
        !is_replacement(s[i]),
    decreases i - from,
{
    if from < i {
        lemma_no_replacement(s, from + 1, i);
    }
}

proof fn lemma_strip_bounds(s: Seq<char>)
    ensures
        ({
            let t = strip_breaks(s);
            let n = s.len() - t.len();
            &&& 0 <= n
            &&& t == s.skip(n)
            &&& forall|k: int| 0 <= k < n ==> (#[trigger] s[k] == '\n' || s[k] == '\r')
            &&& t.len() > 0 ==> t[0] != '\n' && t[0] != '\r'
        }),
    decreases s.len(),
{
    if s.len() > 0 && (s[0] == '\n' || s[0] == '\r') {
        let u = s.skip(1);
        lemma_strip_bounds(u);
        let n = u.len() - strip_breaks(u).len();
        assert(u.skip(n) =~= s.skip(n + 1));
        assert forall|k: int| 0 <= k < n + 1 implies (#[trigger] s[k] == '\n' || s[k] == '\r') by {
            if k > 0 {
                assert(s[k] == u[k - 1]);
            }
        }
    } else {
        assert(s.skip(0) =~= s);
    }
}

/// What is written is what the model wrote, from the first character on that is
/// no line break: nothing else is taken away, and nothing is changed.
pub proof fn law_cleaning_takes_leading_breaks_alone(content: Seq<char>)
    ensures
        sanitized(content) matches Ok(t) ==> exists|n: int|
            {
                &&& 0 <= n < content.len()
                &&& t == #[trigger] content.skip(n)
                &&& content[n] != '\n' && content[n] != '\r'
                &&& forall|k: int| 0 <= k < n ==> (#[trigger] content[k] == '\n' || content[k]
                    == '\r')
            },
{
    lemma_strip_bounds(content);
    if let Ok(t) = sanitized(content) {
        let n = content.len() - t.len();
        assert(t == content.skip(n));
        assert(t[0] == content[n]);
    }
}

proof fn lemma_first_replacement_is_first(s: Seq<char>, i: int)
    requires
        0 <= i,
    ensures
        match first_replacement(s, i) {
            Some(k) => {
                &&& i <= k < s.len()
                &&& s[k] == '\u{FFFD}' || s[k] == '\u{FFFB}'
                &&& forall|j: int|
                    i <= j < k ==> (#[trigger] s[j]) != '\u{FFFD}' && s[j] != '\u{FFFB}'
            },
            None => forall|j: int|
                i <= j < s.len() ==> (#[trigger] s[j]) != '\u{FFFD}' && s[j] != '\u{FFFB}',
        },
    decreases s.len() - i,
{
    if i < s.len() && !is_replacement(s[i]) {
        lemma_first_replacement_is_first(s, i + 1);
    }
}

proof fn lemma_first_glued_is_first(lines: Seq<Seq<char>>, i: int)
    requires
        0 <= i,
    ensures
        match first_glued(lines, i) {
            Some(k) => {
                &&& i <= k < lines.len() - 1
                &&& glued(lines[k], lines[k + 1])
                &&& forall|j: int| i <= j < k ==> !glued(#[trigger] lines[j], lines[j + 1])
            },
            None => forall|j: int|
                i <= j < lines.len() - 1 ==> !glued(#[trigger] lines[j], lines[j + 1]),
        },
    decreases lines.len() - i,
{
    if i + 1 < lines.len() && !glued(lines[i], lines[i + 1]) {
        lemma_first_glued_is_first(lines, i + 1);
    }
}

/// Whether a line, without the whitespace around it, opens with a mark of a
/// comment.
pub open spec fn opens_comment(line: Seq<char>) -> bool {
    let t = text::trim(line);
    t.len() > 0 && (t[0] == '#' || t.len() > 1 && t[0] == '/' && t[1] == '/')
}

/// Whether a line, without the whitespace at its end, closes a comment.
pub open spec fn closes_comment(line: Seq<char>) -> bool {
    let t = text::trim_end(line);
    t.len() > 1 && t[t.len() - 2] == '*' && t.last() == '/'
}

/// Whether a line holds nothing but whitespace.
pub open spec fn all_whitespace(line: Seq<char>) -> bool {
    forall|k: int| 0 <= k < line.len() ==> text::is_whitespace(#[trigger] line[k])
}

/// Whether the line at an index is a comment with code right after it.
pub open spec fn code_follows_comment(lines: Seq<Seq<char>>, i: int) -> bool {
    &&& 0 <= i < lines.len() - 1
    &&& opens_comment(lines[i])
    &&& !closes_comment(lines[i])
    &&& !opens_comment(lines[i + 1])
    &&& !all_whitespace(lines[i + 1])
}

proof fn lemma_begins_comment(t: Seq<char>)
    ensures
        begins_comment(t) == (t.len() > 0 && (t[0] == '#' || t.len() > 1 && t[0] == '/' && t[1]
            == '/')),
{
    reveal_strlit("//");
    reveal_strlit("#");
    if t.len() > 0 {
        assert(t.subrange(0, 1) =~= seq![t[0]]);
        assert("#"@ =~= seq!['#']);
        assert("#"@[0] == '#');
    }
    if t.len() > 1 {
        assert(t.subrange(0, 2) =~= seq![t[0], t[1]]);
        assert("//"@[0] == '/' && "//"@[1] == '/');
        assert("//"@ =~= seq!['/', '/']);
    }
}

proof fn lemma_glued_means(line: Seq<char>, next: Seq<char>)
    ensures
        glued(line, next) <==> {
            &&& opens_comment(line)
            &&& !closes_comment(line)
            &&& !opens_comment(next)
            &&& !all_whitespace(next)
        },
{
    reveal_strlit("//");
    reveal_strlit("#");
    reveal_strlit("*/");
    text::law_trimming_takes_whitespace_off(next);
    let u = text::trim_start(line);
    let t = text::trim(line);
    text::lemma_trim_end_keeps(u);
    lemma_begins_comment(u);
    lemma_begins_comment(text::trim(next));
    assert(begins_comment(u) == opens_comment(line)) by {
        if t.len() > 0 {
            assert(t[0] == u[0]);
        }
        if u.len() > 1 && u[0] == '/' && u[1] == '/' {
            assert(!text::is_whitespace(u[1]));
            assert(t.len() > 1 && t[1] == u[1]);
        }
    }
    let e = text::trim_end(line);
    assert(ends_with(e, "*/"@) == closes_comment(line)) by {
        assert("*/"@ =~= seq!['*', '/']);
        if e.len() > 1 {
            assert(e.skip(e.len() - 2) =~= seq![e[e.len() - 2], e.last()]);
        }
    }
}

/// What is refused and what is not: a content of line breaks alone, one with a
/// replacement character, at the place of the first one, and one with a comment
/// that code follows without a break, at the first such line. Every other
/// content passes.
pub proof fn law_broken_content_is_refused(content: Seq<char>)
    requires
        content.len() <= usize::MAX,
    ensures
        match sanitized(content) {
            Ok(t) => {
                &&& forall|i: int|
                    0 <= i < content.len() ==> (#[trigger] content[i]) != '\u{FFFD}' && content[i]
                        != '\u{FFFB}'
                &&& forall|i: int| !#[trigger] code_follows_comment(text::lines(t), i)
            },
            Err(SanitizeError::EmptyContent) => forall|i: int|
                0 <= i < content.len() ==> (#[trigger] content[i] == '\n' || content[i] == '\r'),
            Err(SanitizeError::ReplacementChar { position }) => {
                &&& position < content.len()
                &&& content[position as int] == '\u{FFFD}' || content[position as int]
                    == '\u{FFFB}'
                &&& forall|i: int|
                    0 <= i < position ==> (#[trigger] content[i]) != '\u{FFFD}' && content[i]
                        != '\u{FFFB}'
            },
            Err(SanitizeError::CommentGlued { line }) => exists|n: int, i: int|
                {
                    &&& 0 <= n <= content.len()
                    &&& forall|k: int| 0 <= k < n ==> (#[trigger] content[k] == '\n' || content[k]
                        == '\r')
                    &&& #[trigger] code_follows_comment(text::lines(content.skip(n)), i)
                    &&& forall|j: int|
                        0 <= j < i ==> !#[trigger] code_follows_comment(
                            text::lines(content.skip(n)),
                            j,
                        )
                    &&& line == line_feeds(content.take(n)) + i + 1
                },
        },
{
    lemma_strip_bounds(content);
    let t = strip_breaks(content);
    let gone = leading_breaks(content);
    lemma_first_replacement_is_first(t, 0);
    assert forall|i: int| gone <= i < content.len() implies content[i] == t[i - gone] by {}
    let lines = text::lines(t);
    lemma_first_glued_is_first(lines, 0);
    assert forall|i: int| #[trigger] code_follows_comment(lines, i) == (0 <= i < lines.len() - 1
        && glued(lines[i], lines[i + 1])) by {
        if 0 <= i < lines.len() - 1 {
            lemma_glued_means(lines[i], lines[i + 1]);
        }
    }
    if t.len() > 0 && first_replacement(t, 0) is None {
        assert forall|i: int| 0 <= i < content.len() implies (#[trigger] content[i]) != '\u{FFFD}'
            && content[i] != '\u{FFFB}' by {
            if i >= gone {
                assert(content[i] == t[i - gone]);
            }
        }
        if let Some(i) = first_glued(lines, 0) {
            text::lemma_lines_len(t, 0);
            lemma_feeds_bound(content.take(gone));
            assert(code_follows_comment(text::lines(content.skip(gone)), i));
            assert forall|j: int| 0 <= j < i implies !#[trigger] code_follows_comment(
                text::lines(content.skip(gone)),
                j,
            ) by {}
        }
    }
    if t.len() > 0 {
        if let Some(i) = first_replacement(t, 0) {
            assert forall|k: int| 0 <= k < gone + i implies (#[trigger] content[k]) != '\u{FFFD}'
                && content[k] != '\u{FFFB}' by {
                if k >= gone {
                    assert(content[k] == t[k - gone]);
                }
            }
        }
    }
}

proof fn lemma_feeds_bound(s: Seq<char>)
    ensures
        line_feeds(s) <= s.len(),
    decreases s.len(),
{
    if s.len() > 0 {
        lemma_feeds_bound(s.drop_last());
    }
}

/// A message ends in the place that it is about, and what is wrong with a character is
/// told from what is wrong with a line.
pub proof fn law_messages_name_the_place(n: usize)
    ensures
        text::decimal(n as nat).is_suffix_of(
            (SanitizeError::ReplacementChar { position: n }).message(),
        ),
        text::decimal(n as nat).is_suffix_of((SanitizeError::CommentGlued { line: n }).message()),
        (SanitizeError::ReplacementChar { position: n }).message() != (SanitizeError::CommentGlued {
            line: n,
        }).message(),
{
    reveal_strlit("new_string contains U+FFFB replacement character at char offset ");
    reveal_strlit("comment glued to code at line ");
    let d = text::decimal(n as nat);
    let r = "new_string contains U+FFFB replacement character at char offset "@;
    let g = "comment glued to code at line "@;
    assert(r.len() != g.len());
    assert((r + d).subrange(r.len() as int, (r + d).len() as int) =~= d);
    assert((g + d).subrange(g.len() as int, (g + d).len() as int) =~= d);
    assert((r + d).len() != (g + d).len());
}

} // verus!
