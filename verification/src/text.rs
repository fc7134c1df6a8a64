//! Texts as sequences of characters: the operations on strings that the rest
//! of the library is written in, each tied to a mathematical model over
//! `Seq<char>`.
use vstd::prelude::*;

verus! {

/// `String::push` appends one character to the end of the string.
pub assume_specification[ String::push ](s: &mut String, c: char)
    ensures
        final(s)@ == old(s)@.push(c),
;

/// The characters of a text, in order.
pub fn to_chars(s: &str) -> (v: Vec<char>)
    ensures
        v@ == s@,
{
    let mut v: Vec<char> = Vec::new();
    for c in it: s.chars()
        invariant
            it.seq() == s@,
            v@ == s@.take(it.index() as int),
    {
        v.push(c);
        assert(s@.take(it.index() as int).push(c) =~= s@.take(it.index() as int + 1));
    }
    assert(s@.take(s@.len() as int) =~= s@);
    v
}

/// The text made of the given characters.
pub fn from_chars(v: &[char]) -> (s: String)
    ensures
        s@ == v@,
{
    let mut s = String::new();
    let mut i: usize = 0;
    while i < v.len()
        invariant
            i <= v@.len(),
            s@ == v@.take(i as int),
        decreases v@.len() - i,
    {
        s.push(v[i]);
        i += 1;
        assert(v@.take(i as int) =~= v@.take(i - 1).push(v@[i - 1]));
    }
    assert(v@.take(v@.len() as int) =~= v@);
    s
}

/// A copy of the text.
pub fn copy_str(s: &str) -> (r: String)
    ensures
        r@ == s@,
{
    s.to_string()
}

/// Whether two texts hold the same characters.
pub fn str_eq(a: &str, b: &str) -> (r: bool)
    ensures
        r == (a@ == b@),
{
    copy_str(a) == copy_str(b)
}

/// Whether two slices of characters are the same.
pub fn chars_eq(a: &[char], b: &[char]) -> (r: bool)
    ensures
        r == (a@ == b@),
{
    if a.len() != b.len() {
        return false;
    }
    let mut i: usize = 0;
    while i < a.len()
        invariant
            i <= a@.len(),
            a@.len() == b@.len(),
            forall|k: int| 0 <= k < i ==> a@[k] == b@[k],
        decreases a@.len() - i,
    {
        if a[i] != b[i] {
            return false;
        }
        i += 1;
    }
    assert(a@ =~= b@);
    true
}

// ---------------------------------------------------------------------------
// Numbers
// ---------------------------------------------------------------------------

/// The decimal digit of a number below ten.
pub open spec fn digit_char(d: nat) -> char {
    ('0' as nat + d) as char
}

/// The decimal notation of a natural number.
pub open spec fn decimal(n: nat) -> Seq<char>
    decreases n,
{
    if n < 10 {
        seq![digit_char(n)]
    } else {
        decimal(n / 10).push(digit_char(n % 10))
    }
}

/// The decimal notation of an integer, with a leading minus sign below zero.
pub open spec fn decimal_int(n: int) -> Seq<char> {
    if n < 0 {
        seq!['-'] + decimal((-n) as nat)
    } else {
        decimal(n as nat)
    }
}

/// Decimal notation of a `u64`.
pub fn decimal_u64(n: u64) -> (s: String)
    ensures
        s@ == decimal(n as nat),
    decreases n,
{
    let d: u8 = (n % 10) as u8;
    let c: char = (48u8 + d) as char;
    if n < 10 {
        let mut s = String::new();
        s.push(c);
        assert(s@ =~= seq![digit_char(n as nat)]);
        s
    } else {
        let mut s = decimal_u64(n / 10);
        s.push(c);
        s
    }
}

/// Decimal notation of a `usize`.
pub fn decimal_usize(n: usize) -> (s: String)
    ensures
        s@ == decimal(n as nat),
{
    decimal_u64(n as u64)
}

/// Decimal notation of an `i32`.
pub fn decimal_i32(n: i32) -> (s: String)
    ensures
        s@ == decimal_int(n as int),
{
    if n < 0 {
        let m: u64 = (-(n as i64)) as u64;
        let mut s = String::new();
        s.push('-');
        let d = decimal_u64(m);
        assert(s@ =~= seq!['-']);
        s.append(&d);
        s
    } else {
        decimal_u64(n as u64)
    }
}

/// Whether a character is one of `0` to `9`.
pub open spec fn is_digit(c: char) -> bool {
    '0' <= c <= '9'
}

/// The number that a sequence of decimal digits denotes.
pub open spec fn digits_value(s: Seq<char>) -> nat
    decreases s.len(),
{
    if s.len() == 0 {
        0
    } else {
        digits_value(s.drop_last()) * 10 + (s.last() as nat - '0' as nat) as nat
    }
}

/// Whether all characters are decimal digits and there is at least one.
pub open spec fn all_digits(s: Seq<char>) -> bool {
    &&& s.len() > 0
    &&& forall|i: int| 0 <= i < s.len() ==> is_digit(#[trigger] s[i])
}

/// The digits of an unsigned number's notation: one leading plus sign is
/// allowed.
pub open spec fn unsigned_digits(s: Seq<char>) -> Seq<char> {
    if s.len() > 0 && s[0] == '+' {
        s.skip(1)
    } else {
        s
    }
}

/// The number that a text denotes, if it is a decimal notation of one that is
/// at most `max`.
pub open spec fn parse_unsigned(s: Seq<char>, max: nat) -> Option<nat> {
    let d = unsigned_digits(s);
    if all_digits(d) && digits_value(d) <= max {
        Some(digits_value(d))
    } else {
        None
    }
}

proof fn lemma_digits_value_monotone(s: Seq<char>, i: int)
    requires
        0 <= i <= s.len(),
    ensures
        digits_value(s.take(i)) <= digits_value(s),
    decreases s.len() - i,
{
    if i < s.len() {
        lemma_digits_value_monotone(s, i + 1);
        assert(s.take(i + 1).drop_last() =~= s.take(i));
    } else {
        assert(s.take(i) =~= s);
    }
}

/// The value of a decimal notation, where it is at most `max`.
pub fn parse_u64(s: &str, max: u64) -> (r: Option<u64>)
    ensures
        match r {
            Some(n) => parse_unsigned(s@, max as nat) == Some(n as nat),
            None => parse_unsigned(s@, max as nat) is None,
        },
{
    let v = to_chars(s);
    let start: usize = if v.len() > 0 && v[0] == '+' { 1 } else { 0 };
    let ghost d = unsigned_digits(s@);
    assert(d =~= v@.skip(start as int));
    if start == v.len() {
        return None;
    }
    let mut n: u64 = 0;
    let mut i: usize = start;
    while i < v.len()
        invariant
            start <= i <= v@.len(),
            d == v@.skip(start as int),
            d == unsigned_digits(s@),
            n == digits_value(d.take(i - start)),
            n <= max,
            forall|k: int| 0 <= k < i - start ==> is_digit(#[trigger] d[k]),
        decreases v@.len() - i,
    {
        let c = v[i];
        assert(d[i - start] == c);
        if c < '0' || c > '9' {
            assert(!is_digit(d[i - start]));
            return None;
        }
        let digit: u64 = (c as u64) - 48;
        proof {
            assert(d.take(i - start + 1).drop_last() =~= d.take(i - start));
            assert(d.take(i - start + 1).last() == c);
            assert(digits_value(d.take(i - start + 1)) == n * 10 + digit);
            lemma_digits_value_monotone(d, i - start + 1);
        }
        if digit > max || n > max / 10 || n * 10 > max - digit {
            return None;
        }
        n = n * 10 + digit;
        i += 1;
    }
    assert(d.take(d.len() as int) =~= d);
    Some(n)
}

// ---------------------------------------------------------------------------
// Whitespace
// ---------------------------------------------------------------------------

/// The characters with the Unicode property White_Space.
pub open spec fn is_whitespace(c: char) -> bool {
    ||| '\u{9}' <= c <= '\u{d}'
    ||| c == ' '
    ||| c == '\u{85}'
    ||| c == '\u{a0}'
    ||| c == '\u{1680}'
    ||| '\u{2000}' <= c <= '\u{200a}'
    ||| c == '\u{2028}'
    ||| c == '\u{2029}'
    ||| c == '\u{202f}'
    ||| c == '\u{205f}'
    ||| c == '\u{3000}'
}

/// Whether a character has the Unicode property White_Space.
pub fn whitespace(c: char) -> (r: bool)
    ensures
        r == is_whitespace(c),
{
    ('\u{9}' <= c && c <= '\u{d}') || c == ' ' || c == '\u{85}' || c == '\u{a0}' || c == '\u{1680}'
        || ('\u{2000}' <= c && c <= '\u{200a}') || c == '\u{2028}' || c == '\u{2029}' || c
        == '\u{202f}' || c == '\u{205f}' || c == '\u{3000}'
}

/// A text without its leading whitespace.
pub open spec fn trim_start(s: Seq<char>) -> Seq<char>
    decreases s.len(),
{
    if s.len() > 0 && is_whitespace(s[0]) {
        trim_start(s.skip(1))
    } else {
        s
    }
}

/// A text without its trailing whitespace.
pub open spec fn trim_end(s: Seq<char>) -> Seq<char>
    decreases s.len(),
{
    if s.len() > 0 && is_whitespace(s.last()) {
        trim_end(s.drop_last())
    } else {
        s
    }
}

/// A text without the whitespace at both its ends.
pub open spec fn trim(s: Seq<char>) -> Seq<char> {
    trim_end(trim_start(s))
}

/// Number of leading whitespace characters.
pub fn leading_whitespace(v: &[char]) -> (n: usize)
    ensures
        n <= v@.len(),
        trim_start(v@) == v@.skip(n as int),
        forall|i: int| 0 <= i < n ==> is_whitespace(#[trigger] v@[i]),
        n < v@.len() ==> !is_whitespace(v@[n as int]),
{
    let mut n: usize = 0;
    assert(v@.skip(0) =~= v@);
    while n < v.len() && whitespace(v[n])
        invariant
            n <= v@.len(),
            trim_start(v@) == trim_start(v@.skip(n as int)),
            forall|i: int| 0 <= i < n ==> is_whitespace(#[trigger] v@[i]),
        decreases v@.len() - n,
    {
        assert(v@.skip(n as int)[0] == v@[n as int]);
        assert(v@.skip(n as int).skip(1) =~= v@.skip(n as int + 1));
        n += 1;
    }
    n
}

/// The text without its leading whitespace.
pub fn trim_start_chars(v: &[char]) -> (r: Vec<char>)
    ensures
        r@ == trim_start(v@),
{
    let n = leading_whitespace(v);
    let r = sub_chars(v, n, v.len());
    assert(r@ =~= v@.skip(n as int));
    r
}

/// The text without its trailing whitespace.
pub fn trim_end_chars(v: &[char]) -> (r: Vec<char>)
    ensures
        r@ == trim_end(v@),
{
    let mut n: usize = v.len();
    assert(v@.take(n as int) =~= v@);
    while n > 0 && whitespace(v[n - 1])
        invariant
            n <= v@.len(),
            trim_end(v@) == trim_end(v@.take(n as int)),
        decreases n,
    {
        assert(v@.take(n as int).last() == v@[n - 1]);
        assert(v@.take(n as int).drop_last() =~= v@.take(n - 1));
        n -= 1;
    }
    let r = sub_chars(v, 0, n);
    assert(r@ =~= v@.take(n as int));
    assert(n > 0 ==> v@.take(n as int).last() == v@[n - 1]);
    r
}

/// The text without the whitespace at both its ends.
pub fn trim_chars(v: &[char]) -> (r: Vec<char>)
    ensures
        r@ == trim(v@),
{
    let a = trim_start_chars(v);
    trim_end_chars(&a)
}

/// The text without the whitespace at both its ends.
pub fn trim_str(s: &str) -> (r: String)
    ensures
        r@ == trim(s@),
{
    let v = to_chars(s);
    let t = trim_chars(&v);
    from_chars(&t)
}

/// The characters from index `from` up to index `to`.
pub fn sub_chars(v: &[char], from: usize, to: usize) -> (r: Vec<char>)
    requires
        from <= to <= v@.len(),
    ensures
        r@ == v@.subrange(from as int, to as int),
{
    let mut r: Vec<char> = Vec::new();
    let mut i: usize = from;
    while i < to
        invariant
            from <= i <= to <= v@.len(),
            r@ == v@.subrange(from as int, i as int),
        decreases to - i,
    {
        r.push(v[i]);
        i += 1;
        assert(v@.subrange(from as int, i as int) =~= v@.subrange(from as int, i - 1).push(
            v@[i - 1],
        ));
    }
    r
}

/// Appends the characters of a slice.
pub fn extend_chars(v: &mut Vec<char>, more: &[char])
    ensures
        final(v)@ == old(v)@ + more@,
{
    let ghost before = v@;
    let mut i: usize = 0;
    assert(before + more@.take(0) =~= before);
    while i < more.len()
        invariant
            i <= more@.len(),
            v@ == before + more@.take(i as int),
        decreases more@.len() - i,
    {
        v.push(more[i]);
        i += 1;
        assert(before + more@.take(i as int) =~= (before + more@.take(i - 1)).push(more@[i - 1]));
    }
    assert(more@.take(more@.len() as int) =~= more@);
}

// ---------------------------------------------------------------------------
// Searching
// ---------------------------------------------------------------------------

/// Whether `pat` stands in `s` at index `i`.
pub open spec fn matches_at(s: Seq<char>, pat: Seq<char>, i: int) -> bool {
    0 <= i && i + pat.len() <= s.len() && s.subrange(i, i + pat.len()) == pat
}

/// The first index from `i` on at which `pat` stands in `s`.
pub open spec fn find_from(s: Seq<char>, pat: Seq<char>, i: int) -> Option<int>
    decreases s.len() + 1 - i,
{
    if i < 0 || i + pat.len() > s.len() {
        None
    } else if matches_at(s, pat, i) {
        Some(i)
    } else {
        find_from(s, pat, i + 1)
    }
}

/// Whether `pat` stands somewhere in `s`.
pub open spec fn contains(s: Seq<char>, pat: Seq<char>) -> bool {
    exists|i: int| matches_at(s, pat, i)
}

/// What `find_from` returns is the least index with a match, and it returns
/// nothing only where there is none.
pub proof fn lemma_find_from(s: Seq<char>, pat: Seq<char>, i: int)
    requires
        0 <= i,
    ensures
        match find_from(s, pat, i) {
            Some(k) => i <= k && matches_at(s, pat, k) && forall|j: int|
                i <= j < k ==> !matches_at(s, pat, j),
            None => forall|j: int| i <= j ==> !matches_at(s, pat, j),
        },
    decreases s.len() + 1 - i,
{
    if i + pat.len() <= s.len() && !matches_at(s, pat, i) {
        lemma_find_from(s, pat, i + 1);
    }
}

/// Whether `pat` stands in `s` at index `i`.
pub fn stands_at(s: &[char], pat: &[char], i: usize) -> (r: bool)
    ensures
        r == matches_at(s@, pat@, i as int),
{
    if i > s.len() || pat.len() > s.len() - i {
        return false;
    }
    let mut k: usize = 0;
    while k < pat.len()
        invariant
            k <= pat@.len(),
            i + pat@.len() <= s@.len() <= usize::MAX,
            forall|j: int| 0 <= j < k ==> s@[i + j] == pat@[j],
        decreases pat@.len() - k,
    {
        if s[i + k] != pat[k] {
            assert(s@.subrange(i as int, i + pat@.len())[k as int] != pat@[k as int]);
            return false;
        }
        k += 1;
    }
    assert(s@.subrange(i as int, i + pat@.len()) =~= pat@);
    true
}

/// The first index from `from` on at which `pat` stands in `s`.
pub fn find_chars(s: &[char], pat: &[char], from: usize) -> (r: Option<usize>)
    ensures
        match r {
            Some(k) => find_from(s@, pat@, from as int) == Some(k as int) && from <= k && k
                + pat@.len() <= s@.len() && matches_at(s@, pat@, k as int),
            None => find_from(s@, pat@, from as int) is None,
        },
{
    let mut i: usize = from;
    while i <= s.len() && pat.len() <= s.len() - i
        invariant
            from <= i,
            find_from(s@, pat@, from as int) == find_from(s@, pat@, i as int),
        decreases s@.len() + 1 - i,
    {
        if stands_at(s, pat, i) {
            return Some(i);
        }
        if i == s.len() {
            assert(find_from(s@, pat@, i + 1) is None);
            return None;
        }
        i += 1;
    }
    None
}

/// Whether `pat` stands somewhere in `s`.
pub fn contains_chars(s: &[char], pat: &[char]) -> (r: bool)
    ensures
        r == contains(s@, pat@),
{
    proof {
        lemma_find_from(s@, pat@, 0);
    }
    match find_chars(s, pat, 0) {
        Some(k) => true,
        None => {
            assert forall|j: int| !matches_at(s@, pat@, j) by {}
            false
        },
    }
}

/// Whether `pat` stands somewhere in `s`.
pub fn contains_str(s: &str, pat: &str) -> (r: bool)
    ensures
        r == contains(s@, pat@),
{
    let a = to_chars(s);
    let b = to_chars(pat);
    contains_chars(&a, &b)
}

/// Whether a text begins with another.
pub fn starts_with_chars(s: &[char], pat: &[char]) -> (r: bool)
    ensures
        r == pat@.is_prefix_of(s@),
{
    let r = stands_at(s, pat, 0);
    assert(pat@.len() <= s@.len() ==> s@.subrange(0, pat@.len() as int) == s@.take(
        pat@.len() as int,
    ));
    r
}

/// Whether a text begins with another.
pub fn starts_with_str(s: &str, pat: &str) -> (r: bool)
    ensures
        r == pat@.is_prefix_of(s@),
{
    let a = to_chars(s);
    let b = to_chars(pat);
    starts_with_chars(&a, &b)
}

/// Number of occurrences of `pat` in `s` from index `i` on, counted from the
/// left without overlap.
pub open spec fn count_from(s: Seq<char>, pat: Seq<char>, i: int) -> nat
    decreases s.len() - i,
    when pat.len() > 0 && 0 <= i
    via count_from_decreases
{
    match find_from(s, pat, i) {
        Some(k) => 1 + count_from(s, pat, k + pat.len()),
        None => 0,
    }
}

#[via_fn]
proof fn count_from_decreases(s: Seq<char>, pat: Seq<char>, i: int) {
    lemma_find_from(s, pat, i);
}

/// Number of occurrences of a non-empty `pat` in `s`, counted from the left
/// without overlap.
pub fn count_chars(s: &[char], pat: &[char]) -> (n: usize)
    requires
        pat@.len() > 0,
    ensures
        n == count_from(s@, pat@, 0),
        n <= s@.len(),
{
    let len: usize = s.len();
    let mut n: usize = 0;
    let mut i: usize = 0;
    let mut done = false;
    while !done
        invariant
            pat@.len() > 0,
            i <= len == s@.len(),
            n <= i,
            !done ==> count_from(s@, pat@, 0) == n + count_from(s@, pat@, i as int),
            done ==> count_from(s@, pat@, 0) == n,
        decreases s@.len() - i, (if done { 0int } else { 1int }),
    {
        match find_chars(s, pat, i) {
            Some(k) => {
                n += 1;
                i = k + pat.len();
            },
            None => {
                done = true;
            },
        }
    }
    n
}

/// `s` from index `i` on, with every occurrence of `pat`, found from the left
/// without overlap, replaced by `with`.
pub open spec fn replace_from(s: Seq<char>, pat: Seq<char>, with: Seq<char>, i: int) -> Seq<char>
    decreases s.len() - i,
    when pat.len() > 0 && 0 <= i
    via replace_from_decreases
{
    match find_from(s, pat, i) {
        Some(k) => s.subrange(i, k) + with + replace_from(s, pat, with, k + pat.len()),
        None => s.skip(i),
    }
}

#[via_fn]
proof fn replace_from_decreases(s: Seq<char>, pat: Seq<char>, with: Seq<char>, i: int) {
    lemma_find_from(s, pat, i);
}

/// `s` with every occurrence of `pat` replaced.
pub open spec fn replace_all(s: Seq<char>, pat: Seq<char>, with: Seq<char>) -> Seq<char> {
    replace_from(s, pat, with, 0)
}

/// `s` with every occurrence of a non-empty `pat` replaced.
pub fn replace_chars(s: &[char], pat: &[char], with: &[char]) -> (r: Vec<char>)
    requires
        pat@.len() > 0,
    ensures
        r@ == replace_all(s@, pat@, with@),
{
    let len: usize = s.len();
    let mut r: Vec<char> = Vec::new();
    let mut i: usize = 0;
    assert(r@ + replace_from(s@, pat@, with@, 0) =~= replace_from(s@, pat@, with@, 0));
    let mut done = false;
    while !done
        invariant
            pat@.len() > 0,
            i <= len == s@.len(),
            !done ==> replace_all(s@, pat@, with@) == r@ + replace_from(
                s@,
                pat@,
                with@,
                i as int,
            ),
            done ==> replace_all(s@, pat@, with@) == r@,
        decreases s@.len() - i, (if done { 0int } else { 1int }),
    {
        let ghost before = r@;
        match find_chars(s, pat, i) {
            Some(k) => {
                let piece = sub_chars(s, i, k);
                extend_chars(&mut r, &piece);
                extend_chars(&mut r, with);
                proof {
                    let rest = replace_from(s@, pat@, with@, k + pat@.len());
                    assert(before + (s@.subrange(i as int, k as int) + with@ + rest) =~= before
                        + s@.subrange(i as int, k as int) + with@ + rest);
                }
                i = k + pat.len();
            },
            None => {
                let piece = sub_chars(s, i, s.len());
                assert(piece@ =~= s@.skip(i as int));
                extend_chars(&mut r, &piece);
                done = true;
            },
        }
    }
    r
}

/// The first index from `i` on at which `c` stands in `s`, or the length of
/// `s`.
pub open spec fn index_of_char(s: Seq<char>, c: char, i: int) -> int
    decreases s.len() - i,
{
    if i < 0 || i >= s.len() {
        s.len() as int
    } else if s[i] == c {
        i
    } else {
        index_of_char(s, c, i + 1)
    }
}

/// What `index_of_char` returns is the least index with that character.
pub proof fn lemma_index_of_char(s: Seq<char>, c: char, i: int)
    requires
        0 <= i <= s.len(),
    ensures
        i <= index_of_char(s, c, i) <= s.len(),
        index_of_char(s, c, i) < s.len() ==> s[index_of_char(s, c, i)] == c,
        forall|j: int| i <= j < index_of_char(s, c, i) ==> s[j] != c,
    decreases s.len() - i,
{
    if i < s.len() && s[i] != c {
        lemma_index_of_char(s, c, i + 1);
    }
}

/// The first index from `from` on at which `c` stands, or the length.
pub fn find_char(s: &[char], c: char, from: usize) -> (r: usize)
    requires
        from <= s@.len(),
    ensures
        r == index_of_char(s@, c, from as int),
        from <= r <= s@.len(),
        r < s@.len() ==> s@[r as int] == c,
        forall|j: int| from <= j < r ==> s@[j] != c,
{
    proof {
        lemma_index_of_char(s@, c, from as int);
    }
    let mut i: usize = from;
    while i < s.len() && s[i] != c
        invariant
            from <= i <= s@.len(),
            index_of_char(s@, c, from as int) == index_of_char(s@, c, i as int),
        decreases s@.len() - i,
    {
        i += 1;
    }
    i
}

/// The pieces of `s` between the occurrences of `c`, from index `i` on.
pub open spec fn split_from(s: Seq<char>, c: char, i: int) -> Seq<Seq<char>>
    decreases s.len() - i,
    when 0 <= i <= s.len()
    via split_from_decreases
{
    let k = index_of_char(s, c, i);
    if k < s.len() {
        seq![s.subrange(i, k)] + split_from(s, c, k + 1)
    } else {
        seq![s.skip(i)]
    }
}

#[via_fn]
proof fn split_from_decreases(s: Seq<char>, c: char, i: int) {
    lemma_index_of_char(s, c, i);
}

/// The pieces of `s` between the occurrences of `c`.
pub open spec fn split(s: Seq<char>, c: char) -> Seq<Seq<char>> {
    split_from(s, c, 0)
}

/// The views of a list of texts held as characters.
pub open spec fn chars_views(v: Seq<Vec<char>>) -> Seq<Seq<char>> {
    v.map_values(|x: Vec<char>| x@)
}

/// The pieces of `s` between the occurrences of `c`.
pub fn split_chars(s: &[char], c: char) -> (r: Vec<Vec<char>>)
    ensures
        chars_views(r@) == split(s@, c),
        r@.len() > 0,
{
    let mut r: Vec<Vec<char>> = Vec::new();
    let mut i: usize = 0;
    let mut done = false;
    assert(chars_views(r@) + split_from(s@, c, 0) =~= split(s@, c));
    while !done
        invariant
            i <= s@.len(),
            !done ==> split(s@, c) == chars_views(r@) + split_from(s@, c, i as int),
            done ==> split(s@, c) == chars_views(r@) && r@.len() > 0,
        decreases s@.len() - i, (if done { 0int } else { 1int }),
    {
        let k = find_char(s, c, i);
        let ghost before = r@;
        if k < s.len() {
            let piece = sub_chars(s, i, k);
            let ghost p = piece@;
            r.push(piece);
            proof {
                assert(chars_views(r@) =~= chars_views(before).push(p));
                let rest = split_from(s@, c, k + 1);
                assert(chars_views(before) + (seq![p] + rest) =~= chars_views(before).push(p)
                    + rest);
            }
            i = k + 1;
        } else {
            let piece = sub_chars(s, i, s.len());
            assert(piece@ =~= s@.skip(i as int));
            let ghost p = piece@;
            r.push(piece);
            proof {
                assert(chars_views(r@) =~= chars_views(before).push(p));
                assert(chars_views(before) + seq![p] =~= chars_views(before).push(p));
            }
            done = true;
        }
    }
    r
}

/// A line without the carriage return at its end.
pub open spec fn strip_cr(s: Seq<char>) -> Seq<char> {
    if s.len() > 0 && s.last() == '\r' {
        s.drop_last()
    } else {
        s
    }
}

/// The lines of a text: the pieces between line feeds, each that ends in a
/// line feed without a carriage return before it. A line feed at the end of the
/// text begins no further line.
pub open spec fn lines_from(s: Seq<char>, i: int) -> Seq<Seq<char>>
    decreases s.len() - i,
    when 0 <= i <= s.len()
    via lines_from_decreases
{
    let k = index_of_char(s, '\n', i);
    if k < s.len() {
        seq![strip_cr(s.subrange(i, k))] + lines_from(s, k + 1)
    } else if i < s.len() {
        seq![s.skip(i)]
    } else {
        Seq::empty()
    }
}

#[via_fn]
proof fn lines_from_decreases(s: Seq<char>, i: int) {
    lemma_index_of_char(s, '\n', i);
}

/// The lines of a text.
pub open spec fn lines(s: Seq<char>) -> Seq<Seq<char>> {
    lines_from(s, 0)
}

/// A text has no more lines than characters.
pub proof fn lemma_lines_len(s: Seq<char>, i: int)
    requires
        0 <= i <= s.len(),
    ensures
        lines_from(s, i).len() <= s.len() - i,
    decreases s.len() - i,
{
    lemma_index_of_char(s, '\n', i);
    let k = index_of_char(s, '\n', i);
    if k < s.len() {
        lemma_lines_len(s, k + 1);
    }
}

/// The lines of a text.
pub fn lines_chars(s: &[char]) -> (r: Vec<Vec<char>>)
    ensures
        chars_views(r@) == lines(s@),
{
    let mut r: Vec<Vec<char>> = Vec::new();
    let mut i: usize = 0;
    let mut done = false;
    assert(chars_views(r@) + lines_from(s@, 0) =~= lines(s@));
    while !done
        invariant
            i <= s@.len(),
            !done ==> lines(s@) == chars_views(r@) + lines_from(s@, i as int),
            done ==> lines(s@) == chars_views(r@),
        decreases s@.len() - i, (if done { 0int } else { 1int }),
    {
        let k = find_char(s, '\n', i);
        let ghost before = r@;
        if k < s.len() {
            let end: usize = if k > i && s[k - 1] == '\r' { k - 1 } else { k };
            let piece = sub_chars(s, i, end);
            let ghost p = piece@;
            proof {
                let full = s@.subrange(i as int, k as int);
                if k > i {
                    assert(full.last() == s@[k - 1]);
                    assert(full.drop_last() =~= s@.subrange(i as int, k - 1));
                }
                assert(p =~= strip_cr(full));
            }
            r.push(piece);
            proof {
                assert(chars_views(r@) =~= chars_views(before).push(p));
                let rest = lines_from(s@, k + 1);
                assert(chars_views(before) + (seq![p] + rest) =~= chars_views(before).push(p)
                    + rest);
            }
            i = k + 1;
        } else if i < s.len() {
            let piece = sub_chars(s, i, s.len());
            assert(piece@ =~= s@.skip(i as int));
            let ghost p = piece@;
            r.push(piece);
            proof {
                assert(chars_views(r@) =~= chars_views(before).push(p));
                assert(chars_views(before) + seq![p] =~= chars_views(before).push(p));
            }
            done = true;
        } else {
            assert(chars_views(before) + Seq::<Seq<char>>::empty() =~= chars_views(before));
            done = true;
        }
    }
    r
}

// ---------------------------------------------------------------------------
// Lists of texts
// ---------------------------------------------------------------------------

/// The views of a list of strings.
pub open spec fn views(v: Seq<String>) -> Seq<Seq<char>> {
    v.map_values(|x: String| x@)
}

/// The texts of a list, one after the other, with `sep` between each two.
pub open spec fn join(parts: Seq<Seq<char>>, sep: Seq<char>) -> Seq<char>
    decreases parts.len(),
{
    if parts.len() == 0 {
        Seq::empty()
    } else if parts.len() == 1 {
        parts[0]
    } else {
        join(parts.drop_last(), sep) + sep + parts.last()
    }
}

/// Joins a list of strings.
pub fn join_strings(parts: &[String], sep: &str) -> (r: String)
    ensures
        r@ == join(views(parts@), sep@),
{
    if parts.len() == 0 {
        return String::new();
    }
    let mut r = copy_str(&parts[0]);
    let mut i: usize = 1;
    assert(views(parts@).take(1)[0] == parts@[0]@);
    while i < parts.len()
        invariant
            1 <= i <= parts@.len(),
            r@ == join(views(parts@).take(i as int), sep@),
        decreases parts@.len() - i,
    {
        r.append(sep);
        r.append(&parts[i]);
        proof {
            let t = views(parts@).take(i + 1);
            assert(t.drop_last() =~= views(parts@).take(i as int));
            assert(t.last() == parts@[i as int]@);
        }
        i += 1;
    }
    assert(views(parts@).take(parts@.len() as int) =~= views(parts@));
    r
}

/// Whether a text is one of a list.
pub fn contains_string(list: &[String], s: &str) -> (r: bool)
    ensures
        r == views(list@).contains(s@),
{
    let mut i: usize = 0;
    while i < list.len()
        invariant
            i <= list@.len(),
            forall|k: int| 0 <= k < i ==> list@[k]@ != s@,
        decreases list@.len() - i,
    {
        if str_eq(&list[i], s) {
            assert(views(list@)[i as int] == s@);
            return true;
        }
        i += 1;
    }
    assert forall|k: int| 0 <= k < views(list@).len() implies views(list@)[k] != s@ by {
        assert(list@[k]@ != s@);
    }
    false
}

/// The lines of a text.
pub fn lines_str(s: &str) -> (r: Vec<String>)
    ensures
        views(r@) == lines(s@),
        r@.len() == lines(s@).len(),
{
    let v = to_chars(s);
    let parts = lines_chars(&v);
    let mut r: Vec<String> = Vec::new();
    let mut i: usize = 0;
    while i < parts.len()
        invariant
            i <= parts@.len(),
            r@.len() == i,
            forall|k: int| 0 <= k < i ==> (#[trigger] r@[k])@ == parts@[k]@,
        decreases parts@.len() - i,
    {
        r.push(from_chars(&parts[i]));
        i += 1;
    }
    assert(views(r@) =~= chars_views(parts@));
    r
}

/// Joins the strings from index `from` up to index `to`.
pub fn join_range(parts: &Vec<String>, from: usize, to: usize, sep: &str) -> (r: String)
    requires
        from <= to <= parts@.len(),
    ensures
        r@ == join(views(parts@).subrange(from as int, to as int), sep@),
{
    let piece = vstd::slice::slice_subrange(parts.as_slice(), from, to);
    assert(views(piece@) =~= views(parts@).subrange(from as int, to as int));
    join_strings(piece, sep)
}

// ---------------------------------------------------------------------------
// ASCII case
// ---------------------------------------------------------------------------

/// A character with an ASCII upper-case letter made lower-case.
pub open spec fn ascii_lower_char(c: char) -> char {
    if 'A' <= c <= 'Z' {
        (c as nat + 32) as char
    } else {
        c
    }
}

/// A text with its ASCII upper-case letters made lower-case.
pub open spec fn ascii_lower(s: Seq<char>) -> Seq<char> {
    s.map_values(|c: char| ascii_lower_char(c))
}

/// A text with its ASCII upper-case letters made lower-case.
pub fn ascii_lower_str(s: &str) -> (r: String)
    ensures
        r@ == ascii_lower(s@),
{
    let v = to_chars(s);
    let mut r = String::new();
    let mut i: usize = 0;
    while i < v.len()
        invariant
            i <= v@.len(),
            v@ == s@,
            r@ == ascii_lower(s@.take(i as int)),
        decreases v@.len() - i,
    {
        let c = v[i];
        let d: char = if c >= 'A' && c <= 'Z' { ((c as u8) + 32) as char } else { c };
        r.push(d);
        i += 1;
        assert(ascii_lower(s@.take(i as int)) =~= ascii_lower(s@.take(i - 1)).push(d));
    }
    assert(s@.take(s@.len() as int) =~= s@);
    r
}

/// A text in lower case.
pub uninterp spec fn lowercase(s: Seq<char>) -> Seq<char>;

/// `str::to_lowercase`: the text in lower case. It depends on the text alone.
#[verifier::external_body]
pub(crate) fn to_lower(s: &str) -> (r: String)
    ensures
        r@ == lowercase(s@),
{
    s.to_lowercase()
}

// ---------------------------------------------------------------------------
// Laws
// ---------------------------------------------------------------------------

/// Whether a text holds another.
pub open spec fn holds(s: Seq<char>, part: Seq<char>) -> bool {
    exists|a: Seq<char>, b: Seq<char>| s == #[trigger] (a + part + b)
}

/// A text holds what stands at its end or at its beginning.
pub proof fn lemma_holds_ends(a: Seq<char>, b: Seq<char>)
    ensures
        holds(a + b, a),
        holds(a + b, b),
{
    let none = Seq::<char>::empty();
    assert(a + b =~= none + a + b);
    assert(a + b =~= a + b + none);
}

/// A text that goes on holds what it held.
pub proof fn lemma_holds_on(s: Seq<char>, more: Seq<char>, part: Seq<char>)
    requires
        holds(s, part),
    ensures
        holds(s + more, part),
        holds(more + s, part),
{
    let (a, b) = choose|a: Seq<char>, b: Seq<char>| s == #[trigger] (a + part + b);
    assert(s + more =~= a + part + (b + more));
    assert(more + s =~= (more + a) + part + b);
}

/// A text holds what a part of it holds.
pub proof fn lemma_holds_within(s: Seq<char>, middle: Seq<char>, part: Seq<char>)
    requires
        holds(s, middle),
        holds(middle, part),
    ensures
        holds(s, part),
{
    let (a, b) = choose|a: Seq<char>, b: Seq<char>| s == #[trigger] (a + middle + b);
    let (c, d) = choose|c: Seq<char>, d: Seq<char>| middle == #[trigger] (c + part + d);
    assert(s =~= (a + c) + part + (d + b));
}

/// The decimal notation of a number is read back as that number, and has no
/// needless zero at its beginning.
pub proof fn law_decimal_is_read_back(n: nat, max: nat)
    requires
        n <= max,
    ensures
        parse_unsigned(decimal(n), max) == Some(n),
        n > 0 ==> decimal(n)[0] != '0',
{
    lemma_decimal_value(n);
    assert(is_digit(decimal(n)[0]));
}

proof fn lemma_decimal_value(n: nat)
    ensures
        all_digits(decimal(n)),
        digits_value(decimal(n)) == n,
        n > 0 ==> decimal(n)[0] != '0',
    decreases n,
{
    let c = digit_char(n % 10);
    assert(is_digit(c) && c as nat - '0' as nat == n % 10);
    if n < 10 {
        assert(decimal(n).drop_last() =~= Seq::empty());
        reveal_with_fuel(digits_value, 2);
    } else {
        lemma_decimal_value(n / 10);
        assert(decimal(n).drop_last() =~= decimal(n / 10));
        assert(decimal(n)[0] == decimal(n / 10)[0]);
    }
}

/// The notation of a number is its own: two numbers with the same notation are
/// the same.
pub proof fn law_decimals_differ(a: nat, b: nat)
    requires
        decimal(a) == decimal(b),
    ensures
        a == b,
{
    lemma_decimal_value(a);
    lemma_decimal_value(b);
}

proof fn lemma_trim_start_bounds(s: Seq<char>)
    ensures
        ({
            let t = trim_start(s);
            let n = s.len() - t.len();
            &&& 0 <= n
            &&& t == s.skip(n)
            &&& forall|k: int| 0 <= k < n ==> is_whitespace(#[trigger] s[k])
            &&& t.len() > 0 ==> !is_whitespace(t[0])
        }),
    decreases s.len(),
{
    if s.len() > 0 && is_whitespace(s[0]) {
        let u = s.skip(1);
        lemma_trim_start_bounds(u);
        let n = u.len() - trim_start(u).len();
        assert(u.skip(n) =~= s.skip(n + 1));
        assert forall|k: int| 0 <= k < n + 1 implies is_whitespace(#[trigger] s[k]) by {
            if k > 0 {
                assert(s[k] == u[k - 1]);
            }
        }
    } else {
        assert(s.skip(0) =~= s);
    }
}

proof fn lemma_trim_end_bounds(s: Seq<char>)
    ensures
        ({
            let t = trim_end(s);
            &&& t.len() <= s.len()
            &&& t == s.take(t.len() as int)
            &&& forall|k: int| t.len() <= k < s.len() ==> is_whitespace(#[trigger] s[k])
            &&& t.len() > 0 ==> !is_whitespace(t.last())
        }),
    decreases s.len(),
{
    if s.len() > 0 && is_whitespace(s.last()) {
        let u = s.drop_last();
        lemma_trim_end_bounds(u);
        let t = trim_end(u);
        assert(u.take(t.len() as int) =~= s.take(t.len() as int));
        assert forall|k: int| t.len() <= k < s.len() implies is_whitespace(#[trigger] s[k]) by {
            if k < u.len() {
                assert(s[k] == u[k]);
            }
        }
    } else {
        assert(s.take(s.len() as int) =~= s);
    }
}

/// Trimming the beginning skips whitespace.
pub proof fn lemma_trim_start_skips(spaces: Seq<char>, rest: Seq<char>)
    requires
        forall|k: int| 0 <= k < spaces.len() ==> is_whitespace(#[trigger] spaces[k]),
        rest.len() > 0 ==> !is_whitespace(rest[0]),
    ensures
        trim_start(spaces + rest) == rest,
    decreases spaces.len(),
{
    let s = spaces + rest;
    if spaces.len() == 0 {
        assert(s =~= rest);
    } else {
        let t = spaces.skip(1);
        assert forall|k: int| 0 <= k < t.len() implies is_whitespace(#[trigger] t[k]) by {
            assert(t[k] == spaces[k + 1]);
        }
        lemma_trim_start_skips(t, rest);
        assert(s.skip(1) =~= t + rest);
        assert(is_whitespace(spaces[0]));
    }
}

/// Trimming the end keeps what stands before the last character that is no
/// whitespace.
pub proof fn lemma_trim_end_keeps(s: Seq<char>)
    ensures
        trim_end(s).len() <= s.len(),
        trim_end(s) == s.take(trim_end(s).len() as int),
        forall|k: int| trim_end(s).len() <= k < s.len() ==> is_whitespace(#[trigger] s[k]),
        trim_end(s).len() > 0 ==> !is_whitespace(trim_end(s).last()),
{
    lemma_trim_end_bounds(s);
}

/// Trimming takes whitespace off both ends and nothing else: what is left stands
/// in the text, all around it is whitespace, and it neither begins nor ends with
/// whitespace.
pub proof fn law_trimming_takes_whitespace_off(s: Seq<char>)
    ensures
        exists|from: int, to: int|
            {
                &&& 0 <= from <= to <= s.len()
                &&& trim(s) == #[trigger] s.subrange(from, to)
                &&& forall|k: int| 0 <= k < from ==> is_whitespace(#[trigger] s[k])
                &&& forall|k: int| to <= k < s.len() ==> is_whitespace(#[trigger] s[k])
            },
        trim(s).len() > 0 ==> !is_whitespace(trim(s)[0]) && !is_whitespace(trim(s).last()),
        trim(s).len() == 0 <==> forall|k: int| 0 <= k < s.len() ==> is_whitespace(#[trigger] s[k]),
{
    lemma_trim_start_bounds(s);
    let u = trim_start(s);
    let from = s.len() - u.len();
    lemma_trim_end_bounds(u);
    let t = trim_end(u);
    let to = from + t.len();
    assert(t =~= s.subrange(from, to));
    assert forall|k: int| to <= k < s.len() implies is_whitespace(#[trigger] s[k]) by {
        assert(s[k] == u[k - from]);
    }
    if t.len() > 0 {
        assert(t[0] == u[0]);
        assert(s[from] == u[0]);
    }
    if t.len() == 0 {
        assert forall|k: int| 0 <= k < s.len() implies is_whitespace(#[trigger] s[k]) by {}
    }
}

/// Joining two lists one after the other joins each, with the separator between
/// them; a single text is joined to itself, and nothing to nothing.
pub proof fn law_joining_is_piecewise(a: Seq<Seq<char>>, b: Seq<Seq<char>>, sep: Seq<char>)
    ensures
        a.len() > 0 && b.len() > 0 ==> join(a + b, sep) == join(a, sep) + sep + join(b, sep),
        a.len() == 1 ==> join(a, sep) == a[0],
        a.len() == 0 ==> join(a, sep) == Seq::<char>::empty(),
    decreases b.len(),
{
    if a.len() > 0 && b.len() > 0 {
        assert((a + b).drop_last() =~= a + b.drop_last());
        if b.len() == 1 {
            assert(a + b.drop_last() =~= a);
        } else {
            law_joining_is_piecewise(a, b.drop_last(), sep);
            assert(join(a, sep) + sep + join(b.drop_last(), sep) + sep + b.last() =~= join(a, sep)
                + sep + (join(b.drop_last(), sep) + sep + b.last()));
        }
    }
}

/// Every text of a list stands in what the list is joined to.
pub proof fn law_joining_keeps_every_part(parts: Seq<Seq<char>>, sep: Seq<char>, i: int)
    requires
        0 <= i < parts.len(),
    ensures
        holds(join(parts, sep), parts[i]),
    decreases parts.len(),
{
    let none = Seq::<char>::empty();
    if parts.len() == 1 {
        assert(join(parts, sep) =~= none + parts[i] + none);
    } else if i == parts.len() - 1 {
        assert(join(parts, sep) =~= join(parts.drop_last(), sep) + sep + parts[i] + none);
    } else {
        let t = parts.drop_last();
        law_joining_keeps_every_part(t, sep, i);
        assert(t[i] == parts[i]);
        let (a, b) = choose|a: Seq<char>, b: Seq<char>| join(t, sep) == #[trigger] (a + t[i] + b);
        assert(join(parts, sep) =~= a + parts[i] + (b + sep + parts.last()));
    }
}

/// Splitting takes a text apart at a character and loses nothing: the pieces with
/// that character between them are the text, and it stands in none of them.
pub proof fn law_split_pieces_make_up_the_text(s: Seq<char>, c: char)
    ensures
        join(split(s, c), seq![c]) == s,
        forall|i: int| 0 <= i < split(s, c).len() ==> !(#[trigger] split(s, c)[i]).contains(c),
        split(s, c).len() > 0,
{
    lemma_split_from(s, c, 0);
    assert(s.skip(0) =~= s);
}

proof fn lemma_split_from(s: Seq<char>, c: char, i: int)
    requires
        0 <= i <= s.len(),
    ensures
        join(split_from(s, c, i), seq![c]) == s.skip(i),
        split_from(s, c, i).len() > 0,
        forall|j: int|
            0 <= j < split_from(s, c, i).len() ==> !(#[trigger] split_from(s, c, i)[j]).contains(
                c,
            ),
    decreases s.len() - i,
{
    lemma_index_of_char(s, c, i);
    let k = index_of_char(s, c, i);
    let all = split_from(s, c, i);
    if k < s.len() {
        lemma_split_from(s, c, k + 1);
        let rest = split_from(s, c, k + 1);
        let first = seq![s.subrange(i, k)];
        law_joining_is_piecewise(first, rest, seq![c]);
        assert(s.skip(i) =~= s.subrange(i, k) + seq![c] + s.skip(k + 1));
        assert(all == first + rest);
        assert forall|j: int| 0 <= j < all.len() implies !(#[trigger] all[j]).contains(c) by {
            if j > 0 {
                assert(all[j] == rest[j - 1]);
            }
        }
    } else {
        assert(all.len() == 1 && all[0] == s.skip(i));
    }
}

/// Taking a text apart into lines loses nothing but the line ends: no line holds
/// a line feed, and a text without carriage returns is its lines with a line feed
/// between them, and one more where it ends in one.
pub proof fn law_lines_make_up_the_text(s: Seq<char>)
    ensures
        forall|i: int| 0 <= i < lines(s).len() ==> !(#[trigger] lines(s)[i]).contains('\n'),
        !s.contains('\r') ==> s == join(lines(s), seq!['\n']) + (if s.len() > 0 && s.last()
            == '\n' {
            seq!['\n']
        } else {
            Seq::empty()
        }),
        lines(s).len() == 0 <==> s.len() == 0,
{
    lemma_lines_from(s, 0);
    assert(s.skip(0) =~= s);
}

proof fn lemma_lines_from(s: Seq<char>, i: int)
    requires
        0 <= i <= s.len(),
    ensures
        lines_from(s, i).len() == 0 <==> i == s.len(),
        forall|j: int|
            0 <= j < lines_from(s, i).len() ==> !(#[trigger] lines_from(s, i)[j]).contains('\n'),
        !s.contains('\r') ==> s.skip(i) == join(lines_from(s, i), seq!['\n']) + (if i < s.len()
            && s.last() == '\n' {
            seq!['\n']
        } else {
            Seq::empty()
        }),
    decreases s.len() - i,
{
    lemma_index_of_char(s, '\n', i);
    let k = index_of_char(s, '\n', i);
    let all = lines_from(s, i);
    let nl = seq!['\n'];
    if k < s.len() {
        lemma_lines_from(s, k + 1);
        let rest = lines_from(s, k + 1);
        let line = strip_cr(s.subrange(i, k));
        assert(!line.contains('\n'));
        assert forall|j: int| 0 <= j < all.len() implies !(#[trigger] all[j]).contains('\n') by {
            if j > 0 {
                assert(all[j] == rest[j - 1]);
            }
        }
        if !s.contains('\r') {
            assert(line =~= s.subrange(i, k)) by {
                if k > i {
                    assert(s.subrange(i, k).last() == s[k - 1]);
                    assert(s.contains(s[k - 1]));
                }
            }
            let first = seq![line];
            law_joining_is_piecewise(first, rest, nl);
            assert(s.skip(i) =~= line + nl + s.skip(k + 1));
            if rest.len() == 0 {
                assert(all =~= first);
                assert(s.skip(k + 1) =~= Seq::empty());
                assert(s.last() == s[k]);
                assert(line + nl + Seq::<char>::empty() =~= line + nl);
            } else {
                assert(all == first + rest);
                let end = if s.last() == '\n' {
                    nl
                } else {
                    Seq::empty()
                };
                assert(line + nl + (join(rest, nl) + end) =~= line + nl + join(rest, nl) + end);
            }
        }
    } else if i < s.len() {
        assert(all.len() == 1 && all[0] == s.skip(i));
        assert(s.last() != '\n');
        assert(s.skip(i) + Seq::<char>::empty() =~= s.skip(i));
    } else {
        assert(s.skip(i) =~= join(all, nl) + Seq::<char>::empty());
    }
}

/// Making a text lower case in ASCII changes its upper-case letters from A to Z,
/// each to its own, and nothing else.
pub proof fn law_lower_case_changes_letters_alone(s: Seq<char>, i: int)
    requires
        0 <= i < s.len(),
    ensures
        ascii_lower(s).len() == s.len(),
        'A' <= s[i] <= 'Z' ==> ascii_lower(s)[i] as nat == s[i] as nat + 32,
        !('A' <= s[i] <= 'Z') ==> ascii_lower(s)[i] == s[i],
{
}

/// Looking for a text finds the first place where it stands, and finds it wherever
/// it stands at all.
pub proof fn law_the_first_place_is_found(s: Seq<char>, part: Seq<char>)
    ensures
        contains(s, part) <==> holds(s, part),
        match find_from(s, part, 0) {
            Some(k) => {
                &&& 0 <= k <= s.len() - part.len()
                &&& s == s.take(k) + part + s.skip(k + part.len())
                &&& forall|j: int|
                    0 <= j < k ==> !#[trigger] matches_at(s, part, j)
            },
            None => !holds(s, part),
        },
{
    lemma_find_from(s, part, 0);
    if let Some(k) = find_from(s, part, 0) {
        assert(s =~= s.take(k) + s.subrange(k, k + part.len()) + s.skip(k + part.len()));
    }
    if contains(s, part) {
        let k = choose|k: int| matches_at(s, part, k);
        assert(s =~= s.take(k) + s.subrange(k, k + part.len()) + s.skip(k + part.len()));
        assert(s == s.take(k) + part + s.skip(k + part.len()));
    }
    if holds(s, part) {
        let (a, b) = choose|a: Seq<char>, b: Seq<char>| s == #[trigger] (a + part + b);
        let k = a.len() as int;
        assert(s.subrange(k, k + part.len()) =~= part);
        assert(matches_at(s, part, k));
    }
}

/// An integer from zero on is written as its digits, and one below zero as a minus
/// sign and the digits of its amount.
pub proof fn law_integers_are_written_with_their_sign(n: int)
    ensures
        n >= 0 ==> decimal_int(n) == decimal(n as nat),
        n < 0 ==> decimal_int(n)[0] == '-' && decimal_int(n).skip(1) == decimal((-n) as nat),
{
    if n < 0 {
        assert(decimal_int(n).skip(1) =~= decimal((-n) as nat));
    }
}

/// A number is read with or without a plus sign in front, unless it is too great; a
/// text with any other character is no number.
pub proof fn law_numbers_are_digits(n: nat, max: nat, s: Seq<char>, i: int)
    ensures
        n <= max ==> parse_unsigned(seq!['+'] + decimal(n), max) == Some(n),
        n > max ==> parse_unsigned(decimal(n), max) is None && parse_unsigned(
            seq!['+'] + decimal(n),
            max,
        ) is None,
        0 <= i < s.len() && !('0' <= s[i] <= '9') && !(i == 0 && s[0] == '+') ==> parse_unsigned(
            s,
            max,
        ) is None,
        s.len() == 0 ==> parse_unsigned(s, max) is None,
        parse_unsigned(s, max) matches Some(v) ==> v <= max,
{
    lemma_decimal_value(n);
    let signed = seq!['+'] + decimal(n);
    assert(signed.skip(1) =~= decimal(n));
    assert(is_digit(decimal(n)[0]));
    if 0 <= i < s.len() && !('0' <= s[i] <= '9') && !(i == 0 && s[0] == '+') {
        let d = unsigned_digits(s);
        if s[0] == '+' {
            assert(d[i - 1] == s[i]);
        } else {
            assert(d[i] == s[i]);
        }
    }
}

/// What counts as whitespace is what Unicode calls so, by its numbers.
pub proof fn law_which_characters_are_whitespace(c: char)
    ensures
        is_whitespace(c) <==> {
            let n = c as u32;
            ||| 9 <= n <= 13
            ||| n == 32
            ||| n == 133
            ||| n == 160
            ||| n == 5760
            ||| 8192 <= n <= 8202
            ||| n == 8232
            ||| n == 8233
            ||| n == 8239
            ||| n == 8287
            ||| n == 12288
        },
{
}

/// A carriage return at the end of a line is taken off, and nothing else.
pub proof fn law_one_return_is_taken_off(s: Seq<char>)
    ensures
        strip_cr(s.push('\r')) == s,
        s.len() == 0 || s.last() != '\r' ==> strip_cr(s) == s,
{
    assert(s.push('\r').drop_last() =~= s);
}

} // verus!
