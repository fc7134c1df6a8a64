//! The check of a file after it was written, and what is done where it fails.
use crate::encoding::{
    self, detect_encoding, encode_content, write_with_encoding, Encoding, EncodingErrorView,
    ReadBytes,
};
use crate::json::{self, parse_json};
use crate::text::{self, copy_str, decimal_usize, from_chars, str_eq, sub_chars, to_chars};
use crate::types;
use vstd::prelude::*;

verus! {

/// Why a file that was written is not left as it is.
#[derive(Debug, PartialEq, Eq)]
pub enum ValidateError {
    /// The file is no JSON document.
    InvalidJson {
        /// The line of the error, from one.
        line: usize,
        /// The column of the error, from one.
        col: usize,
    },
    /// The Java compiler refused the file.
    CompileFailed {
        /// What the compiler said.
        stderr: String,
    },
    /// The file is not in the encoding in which it was written.
    EncodingMismatch {
        /// The encoding in which it was written.
        expected: Encoding,
        /// The encoding that was found.
        actual: Encoding,
    },
    /// Reading or restoring the file failed.
    Io(String),
}

/// What a validation error says.
#[verifier::ext_equal]
pub enum ValidateErrorView {
    InvalidJson { line: usize, col: usize },
    CompileFailed { stderr: Seq<char> },
    EncodingMismatch { expected: Encoding, actual: Encoding },
    Io(Seq<char>),
}

impl View for ValidateError {
    type V = ValidateErrorView;

    open spec fn view(&self) -> ValidateErrorView {
        match self {
            ValidateError::InvalidJson { line, col } => ValidateErrorView::InvalidJson {
                line: *line,
                col: *col,
            },
            ValidateError::CompileFailed { stderr } => ValidateErrorView::CompileFailed {
                stderr: stderr@,
            },
            ValidateError::EncodingMismatch { expected, actual } => {
                ValidateErrorView::EncodingMismatch { expected: *expected, actual: *actual }
            },
            ValidateError::Io(e) => ValidateErrorView::Io(e@),
        }
    }
}

impl ValidateErrorView {
    /// The message of the error.
    pub open spec fn message(self) -> Seq<char> {
        match self {
            ValidateErrorView::InvalidJson { line, col } => "invalid JSON at line "@
                + text::decimal(line as nat) + ", column "@ + text::decimal(col as nat),
            ValidateErrorView::CompileFailed { stderr } => "java compilation failed: "@ + stderr,
            ValidateErrorView::EncodingMismatch { expected, actual } => {
                "encoding mismatch: expected "@ + expected.variant_name() + ", got "@
                    + actual.variant_name()
            },
            ValidateErrorView::Io(e) => "io error during validation: "@ + e,
        }
    }
}

impl ValidateError {
    /// The message of the error.
    pub fn to_string(&self) -> (r: String)
        ensures
            r@ == self@.message(),
    {
        match self {
            ValidateError::InvalidJson { line, col } => {
                let mut s = copy_str("invalid JSON at line ");
                let l = decimal_usize(*line);
                s.append(&l);
                s.append(", column ");
                let c = decimal_usize(*col);
                s.append(&c);
                s
            },
            ValidateError::CompileFailed { stderr } => {
                let mut s = copy_str("java compilation failed: ");
                s.append(stderr);
                s
            },
            ValidateError::EncodingMismatch { expected, actual } => {
                let mut s = copy_str("encoding mismatch: expected ");
                s.append(expected.variant());
                s.append(", got ");
                s.append(actual.variant());
                s
            },
            ValidateError::Io(e) => {
                let mut s = copy_str("io error during validation: ");
                s.append(e);
                s
            },
        }
    }
}

/// The last index below `i` at which a full stop stands, or minus one.
pub open spec fn last_dot(s: Seq<char>, i: int) -> int
    decreases i,
{
    if i <= 0 || i > s.len() {
        -1
    } else if s[i - 1] == '.' {
        i - 1
    } else {
        last_dot(s, i - 1)
    }
}

/// The extension of a file name: what follows its last full stop, unless that
/// is the first character or the name is `..`.
pub open spec fn extension_of(name: Seq<char>) -> Seq<char> {
    let k = last_dot(name, name.len() as int);
    if k <= 0 || name == ".."@ {
        Seq::empty()
    } else {
        name.skip(k + 1)
    }
}

/// The extension of a file name, empty where it has none.
pub fn extension(name: &str) -> (r: String)
    ensures
        r@ == extension_of(name@),
{
    let v = to_chars(name);
    let mut i: usize = v.len();
    while i > 0 && v[i - 1] != '.'
        invariant
            i <= v@.len(),
            v@ == name@,
            last_dot(name@, name@.len() as int) == last_dot(name@, i as int),
        decreases i,
    {
        i -= 1;
    }
    if i <= 1 || str_eq(name, "..") {
        let r = String::new();
        assert(r@ =~= Seq::empty());
        return r;
    }
    let rest = sub_chars(&v, i, v.len());
    assert(rest@ =~= name@.skip(i as int));
    from_chars(&rest)
}

/// What is read of a file after it was written.
#[derive(Debug)]
pub struct Written {
    /// Its bytes.
    pub bytes: ReadBytes,
    /// Its text, read as UTF-8.
    pub text: Result<String, String>,
    /// What the Java compiler said, where it ran and failed.
    pub javac: Option<String>,
}

/// What is wrong with the encoding of a file that was written.
pub open spec fn encoding_problem(
    bytes: ReadBytes,
    expected: Encoding,
) -> Option<ValidateErrorView> {
    match bytes {
        Err(e) => Some(ValidateErrorView::Io(EncodingErrorView::Io(e@).message())),
        Ok(b) => match encoding::detected(b@, encoding::gbk_decoded(b@).1) {
            None => Some(ValidateErrorView::Io(EncodingErrorView::Unknown.message())),
            Some(actual) => if actual == expected {
                None
            } else {
                Some(ValidateErrorView::EncodingMismatch { expected, actual })
            },
        },
    }
}

/// What is wrong with the content of a file with an extension, given where its
/// text stops to be JSON.
pub open spec fn content_problem(
    ext: Seq<char>,
    text: Result<String, String>,
    json_error: Option<(usize, usize)>,
    javac: Option<String>,
    java_check: bool,
) -> Option<ValidateErrorView> {
    if ext == "json"@ {
        match text {
            Err(e) => Some(ValidateErrorView::Io(e@)),
            Ok(_) => match json_error {
                Some(at) => Some(ValidateErrorView::InvalidJson { line: at.0, col: at.1 }),
                None => None,
            },
        }
    } else if ext == "java"@ && java_check {
        match javac {
            Some(stderr) => Some(ValidateErrorView::CompileFailed { stderr: stderr@ }),
            None => None,
        }
    } else {
        None
    }
}

/// Where the text of a file stops to be JSON.
pub open spec fn json_problem(text: Result<String, String>) -> Option<(usize, usize)> {
    match text {
        Ok(s) => match json::parsed_json(s@) {
            Ok(_) => None,
            Err(at) => Some(at),
        },
        Err(_) => None,
    }
}

/// What is wrong with a file that was written: its encoding first, then its
/// content.
pub open spec fn problem(
    ext: Seq<char>,
    written: Written,
    expected: Encoding,
    java_check: bool,
) -> Option<ValidateErrorView> {
    match encoding_problem(written.bytes, expected) {
        Some(e) => Some(e),
        None => content_problem(
            ext,
            written.text,
            json_problem(written.text),
            written.javac,
            java_check,
        ),
    }
}

/// What is wrong with the content of a file, given where its text stops to be
/// JSON.
pub fn check_content(
    ext: &str,
    text: &Result<String, String>,
    json_error: Option<(usize, usize)>,
    javac: &Option<String>,
    java_check: bool,
) -> (r: Result<(), ValidateError>)
    ensures
        match content_problem(ext@, *text, json_error, *javac, java_check) {
            None => r is Ok,
            Some(p) => r matches Err(e) && e@ == p,
        },
{
    if str_eq(ext, "json") {
        match text {
            Err(e) => Err(ValidateError::Io(copy_str(e))),
            Ok(_) => match json_error {
                Some((line, col)) => Err(ValidateError::InvalidJson { line, col }),
                None => Ok(()),
            },
        }
    } else if java_check && str_eq(ext, "java") {
        match javac {
            Some(stderr) => Err(ValidateError::CompileFailed { stderr: copy_str(stderr) }),
            None => Ok(()),
        }
    } else {
        Ok(())
    }
}

/// What is wrong with a file that was written: its encoding first, then its
/// content.
fn find_problem(ext: &str, written: &Written, expected: Encoding, java_check: bool) -> (r: Result<
    (),
    ValidateError,
>)
    ensures
        match problem(ext@, *written, expected, java_check) {
            None => r is Ok,
            Some(p) => r matches Err(e) && e@ == p,
        },
{
    match detect_encoding(&written.bytes) {
        Err(e) => {
            return Err(ValidateError::Io(e.to_string()));
        },
        Ok(actual) => {
            if actual != expected {
                return Err(ValidateError::EncodingMismatch { expected, actual });
            }
        },
    }
    let at = match &written.text {
        Ok(s) => match parse_json(s) {
            Ok(_) => None,
            Err(at) => Some(at),
        },
        Err(_) => None,
    };
    check_content(ext, &written.text, at, &written.javac, java_check)
}

/// What is wrong with a file that was written, and the bytes that are to be
/// written in place of it.
#[derive(Debug)]
pub struct Refusal {
    /// What is wrong.
    pub error: ValidateError,
    /// The bytes of the text that was there before.
    pub restore: Vec<u8>,
}

/// Checks a file after it was written over a text. Whatever is wrong with it, the
/// file is to be rolled back: the refusal holds the bytes of that text.
pub fn validate_after_write(
    ext: &str,
    written: &Written,
    original_content: &str,
    expected: Encoding,
    java_check: bool,
) -> (r: Result<(), Refusal>)
    ensures
        match problem(ext@, *written, expected, java_check) {
            None => r is Ok,
            Some(p) => r matches Err(f) && f.error@ == p && f.restore@ == encoding::encoded(
                original_content@,
                expected,
            ),
        },
{
    match find_problem(ext, written, expected, java_check) {
        Ok(_) => Ok(()),
        Err(error) => Err(Refusal { error, restore: rollback(original_content, expected) }),
    }
}

/// Whether the Java compiler is asked about a file that was written: where it was
/// written over a text, is a Java file in the encoding in which it was written,
/// and is to be compiled at all.
pub open spec fn compiles(
    ext: Seq<char>,
    bytes: ReadBytes,
    original: Option<Seq<char>>,
    expected: Encoding,
    java_check: bool,
) -> bool {
    &&& original is Some
    &&& encoding_problem(bytes, expected) is None
    &&& ext == "java"@
    &&& java_check
}

/// Whether the Java compiler is asked about a file that was written.
pub fn asks_compiler(
    ext: &str,
    bytes: &ReadBytes,
    original: &Option<String>,
    expected: Encoding,
    java_check: bool,
) -> (r: bool)
    ensures
        r == compiles(ext@, *bytes, types::opt_view(*original), expected, java_check),
{
    if original.is_none() || !java_check || !str_eq(ext, "java") {
        return false;
    }
    match detect_encoding(bytes) {
        Ok(actual) => actual == expected,
        Err(_) => false,
    }
}

/// What becomes of a file after it was written.
#[derive(Debug)]
pub enum Settled {
    /// It stays as it is.
    Keep,
    /// It is wrong, and these bytes are written in place of it.
    Restore { bytes: Vec<u8>, error: ValidateError },
}

/// What becomes of a file after it was written, in the model.
#[verifier::ext_equal]
pub enum SettledView {
    Keep,
    Restore { bytes: Seq<u8>, error: ValidateErrorView },
}

impl View for Settled {
    type V = SettledView;

    open spec fn view(&self) -> SettledView {
        match self {
            Settled::Keep => SettledView::Keep,
            Settled::Restore { bytes, error } => SettledView::Restore {
                bytes: bytes@,
                error: error@,
            },
        }
    }
}

/// What becomes of a file after it was written, given the text that was there
/// before, if any: a new file stays as it is; one that is found to be wrong gets
/// its text back.
pub open spec fn settled(
    ext: Seq<char>,
    written: Written,
    original: Option<Seq<char>>,
    expected: Encoding,
    java_check: bool,
) -> SettledView {
    match original {
        None => SettledView::Keep,
        Some(o) => match problem(ext, written, expected, java_check) {
            None => SettledView::Keep,
            Some(error) => SettledView::Restore {
                bytes: encoding::encoded(o, expected),
                error,
            },
        },
    }
}

/// What becomes of a file after it was written, given the text that was there
/// before, if any.
pub fn settle(
    ext: &str,
    written: &Written,
    original: &Option<String>,
    expected: Encoding,
    java_check: bool,
) -> (r: Settled)
    ensures
        r@ == settled(ext@, *written, types::opt_view(*original), expected, java_check),
{
    match original {
        None => Settled::Keep,
        Some(o) => match validate_after_write(ext, written, o, expected, java_check) {
            Ok(_) => Settled::Keep,
            Err(f) => Settled::Restore { bytes: f.restore, error: f.error },
        },
    }
}

impl SettledView {
    /// What the file holds in the end, given the bytes that were written.
    pub open spec fn leaves(self, planned: Seq<u8>) -> Seq<u8> {
        match self {
            SettledView::Keep => planned,
            SettledView::Restore { bytes, .. } => bytes,
        }
    }
}

/// No half-changed state is left: a file that passes its check holds what was
/// written, and one that does not holds the bytes of the text that was there
/// before.
pub proof fn law_no_half_changes(
    ext: Seq<char>,
    written: Written,
    original: Seq<char>,
    expected: Encoding,
    java_check: bool,
    planned: Seq<u8>,
)
    ensures
        settled(ext, written, Some(original), expected, java_check).leaves(planned) == (
        if problem(ext, written, expected, java_check) is None {
            planned
        } else {
            encoding::encoded(original, expected)
        }),
{
}

/// A text that was read from a file and is written back leaves the file as it
/// was, byte for byte: in UTF-8 always, and with a byte order mark where UTF-8
/// follows it.
pub proof fn law_refused_changes_leave_the_file(b: Seq<u8>, malformed: bool)
    ensures
        encoding::detected(b, malformed) == Some(Encoding::Utf8) ==> encoding::encoded(
            encoding::decoded(b, Encoding::Utf8),
            Encoding::Utf8,
        ) == b,
        encoding::detected(b, malformed) == Some(Encoding::Utf8Bom) && vstd::utf8::valid_utf8(
            b.skip(3),
        ) ==> encoding::encoded(
            encoding::decoded(b, Encoding::Utf8Bom),
            Encoding::Utf8Bom,
        ) == b,
{
    if vstd::utf8::valid_utf8(b) {
        vstd::utf8::decode_utf8_encode_utf8(b);
    }
    if encoding::has_bom(b) {
        assert(encoding::bom() + b.skip(3) =~= b);
        if vstd::utf8::valid_utf8(b.skip(3)) {
            vstd::utf8::decode_utf8_encode_utf8(b.skip(3));
        }
    }
}

/// The bytes that bring a file back to what it was: they are read as the text
/// that was there, in its encoding, where that text is known to come back.
pub fn rollback(original_content: &str, expected: Encoding) -> (r: Vec<u8>)
    ensures
        r@ == encoding::encoded(original_content@, expected),
        encoding::comes_back(original_content@, expected, r@) ==> encoding::reads_as(
            r@,
            original_content@,
            expected,
        ),
{
    encode_content(original_content, expected)
}

/// The error that is reported after a rollback: what was wrong, or that the
/// file could not be restored.
pub fn after_rollback(error: ValidateError, restored: &Result<(), String>) -> (r: ValidateError)
    ensures
        r@ == (match restored {
            Ok(_) => error@,
            Err(e) => ValidateErrorView::Io(EncodingErrorView::Write(e@).message()),
        }),
{
    match write_with_encoding(restored) {
        Ok(_) => error,
        Err(e) => ValidateError::Io(e.to_string()),
    }
}

/// What the Java compiler reports: nothing where it succeeded or did not run,
/// and else its error output.
pub fn compile_java(output: &Option<(bool, Vec<u8>)>) -> (r: Option<String>)
    ensures
        types::opt_view(r) == (match output {
            None => None,
            Some(o) => if o.0 {
                None
            } else {
                Some(crate::bytes::utf8_text(o.1@))
            },
        }),
{
    match output {
        None => None,
        Some((success, stderr)) => if *success {
            None
        } else {
            Some(crate::bytes::text_of(stderr))
        },
    }
}

/// A rollback restores the file: what is written back is read as the text that
/// was there before, unless the encoding lacks a part of it.
pub proof fn law_rollback_restores(original: Seq<char>, expected: Encoding)
    requires
        encoding::survives(original, expected),
    ensures
        encoding::decoded(encoding::encoded(original, expected), expected) == original,
{
    if expected != Encoding::Gbk {
        encoding::law_utf8_is_read_back(original, expected);
    }
}

/// What passes the check after a write, and what does not: a file passes where it
/// could be read, is in the encoding in which it was written, and is what its name
/// says, so that a `.json` file is a document of that kind and, where Java is to
/// be compiled, the compiler takes a `.java` file. Nothing else is asked.
pub proof fn law_what_passes_the_check(
    ext: Seq<char>,
    written: Written,
    expected: Encoding,
    java_check: bool,
)
    ensures
        problem(ext, written, expected, java_check) is None <==> {
            &&& written.bytes matches Ok(b) && encoding::detected(
                b@,
                encoding::gbk_decoded(b@).1,
            ) == Some(expected)
            &&& ext == "json"@ ==> (written.text matches Ok(s) && json::parsed_json(s@) is Ok)
            &&& ext == "java"@ && java_check ==> written.javac is None
        },
{
    reveal_strlit("json");
    reveal_strlit("java");
    assert("json"@[1] != "java"@[1]);
}

/// A file that does not pass is told with what is wrong: where the document breaks
/// off, what the compiler said, or which encoding was found.
pub proof fn law_what_is_wrong_is_told(
    written: Written,
    expected: Encoding,
    java_check: bool,
    actual: Encoding,
)
    requires
        written.bytes matches Ok(b) && encoding::detected(b@, encoding::gbk_decoded(b@).1) == Some(
            actual,
        ),
    ensures
        actual != expected ==> problem("json"@, written, expected, java_check) == Some(
            ValidateErrorView::EncodingMismatch { expected, actual },
        ),
        actual == expected ==> ((written.text matches Ok(s) && json::parsed_json(s@) is Err)
            ==> problem("json"@, written, expected, java_check) == Some(
            ValidateErrorView::InvalidJson {
                line: json::parsed_json(written.text->Ok_0@)->Err_0.0,
                col: json::parsed_json(written.text->Ok_0@)->Err_0.1,
            },
        )),
        actual == expected ==> (written.javac matches Some(stderr) ==> problem(
            "java"@,
            written,
            expected,
            true,
        ) == Some(ValidateErrorView::CompileFailed { stderr: stderr@ })),
{
    reveal_strlit("json");
    reveal_strlit("java");
    assert("json"@[1] != "java"@[1]);
}

proof fn lemma_last_dot(s: Seq<char>, i: int)
    requires
        0 <= i <= s.len(),
    ensures
        -1 <= last_dot(s, i) < i,
        last_dot(s, i) >= 0 ==> s[last_dot(s, i)] == '.',
        forall|k: int| last_dot(s, i) < k < i ==> s[k] != '.',
    decreases i,
{
    if i > 0 && s[i - 1] != '.' {
        lemma_last_dot(s, i - 1);
    }
}

/// The extension of a name is what follows its last full stop; a name without one,
/// or with none but at its beginning, has no extension.
pub proof fn law_extensions_follow_the_last_full_stop(stem: Seq<char>, ext: Seq<char>)
    ensures
        stem.len() > 0 && !ext.contains('.') && stem + seq!['.'] + ext != ".."@ ==> extension_of(
            stem + seq!['.'] + ext,
        ) == ext,
        !stem.contains('.') ==> extension_of(stem).len() == 0,
        !ext.contains('.') ==> extension_of(seq!['.'] + ext).len() == 0,
{
    let name = stem + seq!['.'] + ext;
    lemma_last_dot(name, name.len() as int);
    let k = last_dot(name, name.len() as int);
    if !ext.contains('.') {
        assert(name[stem.len() as int] == '.');
        if k > stem.len() {
            assert(ext[k - stem.len() - 1] == '.');
            assert(ext.contains(ext[k - stem.len() - 1]));
        }
        assert(k == stem.len());
        assert(name.skip(k + 1) =~= ext);
        let hidden = seq!['.'] + ext;
        lemma_last_dot(hidden, hidden.len() as int);
        let h = last_dot(hidden, hidden.len() as int);
        if h > 0 {
            assert(ext[h - 1] == '.');
            assert(ext.contains(ext[h - 1]));
        }
    }
    if !stem.contains('.') {
        lemma_last_dot(stem, stem.len() as int);
        let j = last_dot(stem, stem.len() as int);
        if j >= 0 {
            assert(stem.contains(stem[j]));
        }
    }
}

/// A Java file in its encoding is compiled where that is asked for and there was a file
/// before; nothing else is.
pub proof fn law_java_files_are_compiled(
    ext: Seq<char>,
    bytes: ReadBytes,
    original: Option<Seq<char>>,
    expected: Encoding,
    java_check: bool,
)
    ensures
        ext != "java"@ ==> !compiles(ext, bytes, original, expected, java_check),
        !compiles(ext, bytes, original, expected, false),
        !compiles(ext, bytes, None, expected, java_check),
        encoding_problem(bytes, expected) is None && original is Some ==> compiles(
            "java"@,
            bytes,
            original,
            expected,
            true,
        ),
        compiles(ext, bytes, original, expected, java_check) ==> encoding_problem(bytes, expected)
            is None,
{
}

} // verus!
