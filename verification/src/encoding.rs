//! The encodings of files: how one is told from another, and how texts are read
//! and written in them.
use crate::bytes::{self, bytes_of, is_utf8, sub_bytes, text_of};
use crate::text::copy_str;
use vstd::prelude::*;

verus! {

/// The encoding of a file.
#[derive(Debug, Clone, Copy, PartialEq, Eq, Structural)]
pub enum Encoding {
    /// UTF-8 without a byte order mark.
    Utf8,
    /// UTF-8 with a byte order mark.
    Utf8Bom,
    /// GBK.
    Gbk,
}

impl Encoding {
    /// The name of the variant.
    pub open spec fn variant_name(self) -> Seq<char> {
        match self {
            Encoding::Utf8 => "Utf8"@,
            Encoding::Utf8Bom => "Utf8Bom"@,
            Encoding::Gbk => "Gbk"@,
        }
    }

    /// The name of the variant.
    pub fn variant(self) -> (r: &'static str)
        ensures
            r@ == self.variant_name(),
    {
        match self {
            Encoding::Utf8 => "Utf8",
            Encoding::Utf8Bom => "Utf8Bom",
            Encoding::Gbk => "Gbk",
        }
    }
}

/// Why a file could not be read or written in its encoding.
#[derive(Debug, PartialEq, Eq)]
pub enum EncodingError {
    /// Reading failed.
    Io(String),
    /// Writing failed.
    Write(String),
    /// The bytes are neither UTF-8 nor GBK.
    Unknown,
}

/// What an encoding error says.
#[verifier::ext_equal]
pub enum EncodingErrorView {
    Io(Seq<char>),
    Write(Seq<char>),
    Unknown,
}

impl View for EncodingError {
    type V = EncodingErrorView;

    open spec fn view(&self) -> EncodingErrorView {
        match self {
            EncodingError::Io(e) => EncodingErrorView::Io(e@),
            EncodingError::Write(e) => EncodingErrorView::Write(e@),
            EncodingError::Unknown => EncodingErrorView::Unknown,
        }
    }
}

impl EncodingErrorView {
    /// The message of the error.
    pub open spec fn message(self) -> Seq<char> {
        match self {
            EncodingErrorView::Io(e) => "failed to read file: "@ + e,
            EncodingErrorView::Write(e) => "failed to write file: "@ + e,
            EncodingErrorView::Unknown => {
                "unable to detect file encoding (not valid UTF-8 or GBK)"@
            },
        }
    }
}

impl EncodingError {
    /// The message of the error.
    pub fn to_string(&self) -> (r: String)
        ensures
            r@ == self@.message(),
    {
        match self {
            EncodingError::Io(e) => {
                let mut s = copy_str("failed to read file: ");
                s.append(e);
                s
            },
            EncodingError::Write(e) => {
                let mut s = copy_str("failed to write file: ");
                s.append(e);
                s
            },
            EncodingError::Unknown => copy_str(
                "unable to detect file encoding (not valid UTF-8 or GBK)",
            ),
        }
    }
}

/// The text that GBK's decoder makes of some bytes, and whether it met any that
/// it could not decode.
pub uninterp spec fn gbk_decoded(bytes: Seq<u8>) -> (Seq<char>, bool);

/// `encoding_rs::GBK.decode`: the text, and whether malformed sequences were
/// replaced in it. Both depend on the bytes alone.
#[verifier::external_body]
fn gbk_decode(bytes: &[u8]) -> (r: (String, bool))
    ensures
        (r.0@, r.1) == gbk_decoded(bytes@),
{
    let (text, _, malformed) = encoding_rs::GBK.decode(bytes);
    (text.into_owned(), malformed)
}

/// The bytes that GBK's encoder makes of a text.
pub uninterp spec fn gbk_encoded(text: Seq<char>) -> Seq<u8>;

/// Whether a character is one of ASCII or a unified ideograph from U+4E00 to
/// U+9FA5, all of which GBK has.
pub open spec fn gbk_common(c: char) -> bool {
    (c as u32) < 0x80 || 0x4E00 <= c as u32 <= 0x9FA5
}

/// Whether every character of a text is one of ASCII or a unified ideograph.
pub open spec fn all_common(text: Seq<char>) -> bool {
    forall|i: int| 0 <= i < text.len() ==> gbk_common(#[trigger] text[i])
}

/// `encoding_rs::GBK.encode`: the bytes of the text, with a numeric character
/// reference for each character that GBK lacks. They depend on the text alone.
/// The bytes of ASCII and of the unified ideographs are looked up in the tables
/// of the decoder, which gives them back, unless it takes the first three for a
/// byte order mark. What becomes of other characters is not said.
#[verifier::external_body]
fn gbk_encode(text: &str) -> (r: Vec<u8>)
    ensures
        r@ == gbk_encoded(text@),
        all_common(text@) && !has_bom(r@) ==> gbk_decoded(r@) == (text@, false),
{
    let (bytes, _, _) = encoding_rs::GBK.encode(text);
    bytes.into_owned()
}

/// The byte order mark of UTF-8.
pub open spec fn bom() -> Seq<u8> {
    seq![0xEFu8, 0xBBu8, 0xBFu8]
}

/// Whether some bytes begin with the byte order mark of UTF-8.
pub open spec fn has_bom(bytes: Seq<u8>) -> bool {
    bytes.len() >= 3 && bytes[0] == 0xEF && bytes[1] == 0xBB && bytes[2] == 0xBF
}

/// The encoding of some bytes, given whether GBK's decoder found malformed ones
/// among them: the byte order mark decides first, then whether they are valid
/// UTF-8, then GBK.
pub open spec fn detected(bytes: Seq<u8>, malformed_gbk: bool) -> Option<Encoding> {
    if has_bom(bytes) {
        Some(Encoding::Utf8Bom)
    } else if vstd::utf8::valid_utf8(bytes) {
        Some(Encoding::Utf8)
    } else if !malformed_gbk {
        Some(Encoding::Gbk)
    } else {
        None
    }
}

/// The encoding of some bytes, given whether GBK's decoder found malformed ones
/// among them.
pub fn choose_encoding(bytes: &[u8], malformed_gbk: bool) -> (r: Result<Encoding, EncodingError>)
    ensures
        match r {
            Ok(e) => detected(bytes@, malformed_gbk) == Some(e),
            Err(e) => detected(bytes@, malformed_gbk) is None && e@ is Unknown,
        },
{
    if bytes.len() >= 3 && bytes[0] == 0xEF && bytes[1] == 0xBB && bytes[2] == 0xBF {
        return Ok(Encoding::Utf8Bom);
    }
    if is_utf8(bytes) {
        return Ok(Encoding::Utf8);
    }
    if !malformed_gbk {
        return Ok(Encoding::Gbk);
    }
    Err(EncodingError::Unknown)
}

/// The encoding of some bytes.
pub fn detect_encoding_from_bytes(bytes: &[u8]) -> (r: Result<Encoding, EncodingError>)
    ensures
        match r {
            Ok(e) => detected(bytes@, gbk_decoded(bytes@).1) == Some(e),
            Err(e) => detected(bytes@, gbk_decoded(bytes@).1) is None && e@ is Unknown,
        },
{
    let (_, malformed) = gbk_decode(bytes);
    choose_encoding(bytes, malformed)
}

/// The bytes of a file that was read, or why they could not be had.
pub type ReadBytes = Result<Vec<u8>, String>;

/// The encoding of a file.
pub fn detect_encoding(read: &ReadBytes) -> (r: Result<Encoding, EncodingError>)
    ensures
        match read {
            Err(e) => r matches Err(x) && x@ == EncodingErrorView::Io(e@),
            Ok(b) => match r {
                Ok(e) => detected(b@, gbk_decoded(b@).1) == Some(e),
                Err(e) => detected(b@, gbk_decoded(b@).1) is None && e@ is Unknown,
            },
        },
{
    match read {
        Err(e) => Err(EncodingError::Io(copy_str(e))),
        Ok(b) => detect_encoding_from_bytes(b),
    }
}

/// The text of some bytes in an encoding.
pub open spec fn decoded(bytes: Seq<u8>, encoding: Encoding) -> Seq<char> {
    match encoding {
        Encoding::Utf8 => bytes::utf8_text(bytes),
        Encoding::Utf8Bom => bytes::utf8_text(
            bytes.skip(
                if bytes.len() < 3 {
                    bytes.len() as int
                } else {
                    3
                },
            ),
        ),
        Encoding::Gbk => gbk_decoded(bytes).0,
    }
}

/// The text of some bytes in an encoding.
pub fn decode_bytes(bytes: &[u8], encoding: Encoding) -> (r: String)
    ensures
        r@ == decoded(bytes@, encoding),
{
    match encoding {
        Encoding::Utf8 => text_of(bytes),
        Encoding::Utf8Bom => {
            let start: usize = if bytes.len() < 3 {
                bytes.len()
            } else {
                3
            };
            let rest = sub_bytes(bytes, start, bytes.len());
            assert(rest@ =~= bytes@.skip(start as int));
            text_of(&rest)
        },
        Encoding::Gbk => gbk_decode(bytes).0,
    }
}

/// The bytes of a text in an encoding.
pub open spec fn encoded(content: Seq<char>, encoding: Encoding) -> Seq<u8> {
    match encoding {
        Encoding::Utf8 => vstd::utf8::encode_utf8(content),
        Encoding::Utf8Bom => bom() + vstd::utf8::encode_utf8(content),
        Encoding::Gbk => gbk_encoded(content),
    }
}

/// Whether a text begins with the byte order mark.
pub open spec fn begins_with_mark(content: Seq<char>) -> bool {
    content.len() > 0 && content[0] == '\u{FEFF}'
}

/// Whether a text is known to come back from its bytes in an encoding: with the
/// byte order mark always; in plain UTF-8 unless it begins with that mark
/// itself; in GBK where it is made of ASCII and unified ideographs and its bytes
/// are not taken for UTF-8.
pub open spec fn comes_back(content: Seq<char>, encoding: Encoding, bytes: Seq<u8>) -> bool {
    match encoding {
        Encoding::Utf8Bom => true,
        Encoding::Utf8 => !begins_with_mark(content),
        Encoding::Gbk => all_common(content) && !has_bom(bytes) && !vstd::utf8::valid_utf8(bytes),
    }
}

/// Whether some bytes are read as a text in an encoding.
pub open spec fn reads_as(bytes: Seq<u8>, content: Seq<char>, encoding: Encoding) -> bool {
    detected(bytes, gbk_decoded(bytes).1) == Some(encoding) && decoded(bytes, encoding) == content
}

/// The bytes of a text in an encoding. What is written so is read back, both the
/// text and the encoding, where the text is known to come back.
pub fn encode_content(content: &str, encoding: Encoding) -> (r: Vec<u8>)
    ensures
        r@ == encoded(content@, encoding),
        comes_back(content@, encoding, r@) ==> reads_as(r@, content@, encoding),
{
    proof {
        law_utf8_is_read_back(content@, Encoding::Utf8);
        law_utf8_is_read_back(content@, Encoding::Utf8Bom);
        law_written_encoding_is_detected(content@, gbk_decoded(encoded(content@, encoding)).1);
    }
    match encoding {
        Encoding::Utf8 => bytes_of(content),
        Encoding::Utf8Bom => {
            let mut r: Vec<u8> = Vec::new();
            r.push(0xEF);
            r.push(0xBB);
            r.push(0xBF);
            let mut rest = bytes_of(content);
            assert(r@ =~= bom());
            r.append(&mut rest);
            r
        },
        Encoding::Gbk => gbk_encode(content),
    }
}

/// The text and the encoding of a file that was read, or what is wrong with it.
pub open spec fn read_view(read: ReadBytes) -> Result<(Seq<char>, Encoding), EncodingErrorView> {
    match read {
        Err(e) => Err(EncodingErrorView::Io(e@)),
        Ok(b) => match detected(b@, gbk_decoded(b@).1) {
            Some(e) => Ok((decoded(b@, e), e)),
            None => Err(EncodingErrorView::Unknown),
        },
    }
}

/// The text and the encoding of a file that was read.
pub fn read_with_encoding(read: &ReadBytes) -> (r: Result<(String, Encoding), EncodingError>)
    ensures
        match r {
            Ok(p) => read_view(*read) == Ok::<(Seq<char>, Encoding), EncodingErrorView>(
                (p.0@, p.1),
            ),
            Err(e) => read_view(*read) == Err::<(Seq<char>, Encoding), EncodingErrorView>(e@),
        },
{
    match read {
        Err(e) => Err(EncodingError::Io(copy_str(e))),
        Ok(b) => match detect_encoding_from_bytes(b) {
            Ok(e) => Ok((decode_bytes(b, e), e)),
            Err(e) => Err(e),
        },
    }
}

/// The outcome of writing the bytes of a text, with the failure of the write as
/// an encoding error.
pub fn write_with_encoding(written: &Result<(), String>) -> (r: Result<(), EncodingError>)
    ensures
        match written {
            Ok(_) => r is Ok,
            Err(e) => r matches Err(x) && x@ == EncodingErrorView::Write(e@),
        },
{
    match written {
        Ok(_) => Ok(()),
        Err(e) => Err(EncodingError::Write(copy_str(e))),
    }
}

/// Whether an encoding has all that a text needs: UTF-8 always does, and GBK
/// where it gives the text back.
pub open spec fn survives(content: Seq<char>, encoding: Encoding) -> bool {
    encoding == Encoding::Gbk ==> gbk_decoded(gbk_encoded(content)).0 == content
}

/// What was written in UTF-8, with or without a byte order mark, is read back
/// as it was.
pub proof fn law_utf8_is_read_back(content: Seq<char>, encoding: Encoding)
    requires
        encoding != Encoding::Gbk,
    ensures
        decoded(encoded(content, encoding), encoding) == content,
{
    bytes::law_utf8_round_trip(content);
    let b = vstd::utf8::encode_utf8(content);
    assert((bom() + b).skip(3) =~= b);
}

/// The bytes of a text begin with the byte order mark just where the text does.
proof fn lemma_mark(content: Seq<char>)
    ensures
        has_bom(vstd::utf8::encode_utf8(content)) <==> begins_with_mark(content),
{
    let b = vstd::utf8::encode_utf8(content);
    if content.len() > 0 {
        let c = content[0] as u32;
        if has_bom(b) {
            vstd::utf8::encode_utf8_first_scalar(content);
            assert(vstd::utf8::codepoint_width_3(0xEF, 0xBB, 0xBF) == 0xFEFF) by (bit_vector);
            assert(vstd::utf8::decode_first_scalar(b) == 0xFEFF);
            vstd::utf8::char_u32_cast(content[0], 0xFEFF);
        }
        if begins_with_mark(content) {
            assert(c == 0xFEFF);
            let e = vstd::utf8::encode_scalar(0xFEFF);
            assert(vstd::utf8::leading_byte_width_3(0xFEFF) == 0xEF) by (bit_vector);
            assert(vstd::utf8::second_last_continuation_byte(0xFEFF) == 0xBB) by (bit_vector);
            assert(vstd::utf8::last_continuation_byte(0xFEFF) == 0xBF) by (bit_vector);
            assert(b[0] == e[0] && b[1] == e[1] && b[2] == e[2]);
        }
    }
}

/// What was written in UTF-8 is found to be in that encoding: with the byte order
/// mark always, and without it unless the text itself begins with that mark.
pub proof fn law_written_encoding_is_detected(content: Seq<char>, malformed_gbk: bool)
    ensures
        detected(encoded(content, Encoding::Utf8Bom), malformed_gbk) == Some(Encoding::Utf8Bom),
        !begins_with_mark(content) ==> detected(
            encoded(content, Encoding::Utf8),
            malformed_gbk,
        ) == Some(Encoding::Utf8),
{
    broadcast use vstd::utf8::encode_utf8_valid_utf8;

    lemma_mark(content);
    let b = encoded(content, Encoding::Utf8Bom);
    assert(b[0] == bom()[0] && b[1] == bom()[1] && b[2] == bom()[2]);
}

/// How encodings are told apart: the byte order mark first, then UTF-8, then GBK,
/// and where none of them fits the file is refused.
pub proof fn law_encodings_are_told_apart(bytes: Seq<u8>, malformed: bool, rest: Seq<u8>)
    ensures
        detected(seq![0xEFu8, 0xBBu8, 0xBFu8] + rest, malformed) == Some(Encoding::Utf8Bom),
        detected(bytes, malformed) == Some(Encoding::Utf8Bom) <==> bytes.len() >= 3 && bytes.take(3)
            == seq![0xEFu8, 0xBBu8, 0xBFu8],
        detected(bytes, malformed) == Some(Encoding::Utf8) ==> vstd::utf8::valid_utf8(bytes),
        vstd::utf8::valid_utf8(bytes) ==> detected(bytes, malformed) == Some(Encoding::Utf8)
            || detected(bytes, malformed) == Some(Encoding::Utf8Bom),
        !vstd::utf8::valid_utf8(bytes) && bytes.take(3) != seq![0xEFu8, 0xBBu8, 0xBFu8] ==> (
        detected(bytes, malformed) == (if malformed {
            None
        } else {
            Some(Encoding::Gbk)
        })),
{
    let mark = seq![0xEFu8, 0xBBu8, 0xBFu8];
    let s = mark + rest;
    assert(s[0] == 0xEF && s[1] == 0xBB && s[2] == 0xBF);
    if bytes.len() >= 3 {
        let t = bytes.take(3);
        assert(t[0] == bytes[0] && t[1] == bytes[1] && t[2] == bytes[2]);
        if has_bom(bytes) {
            assert(t =~= mark);
        }
        if t == mark {
            assert(mark[0] == 0xEF && mark[1] == 0xBB && mark[2] == 0xBF);
        }
    }
}

/// What is read of a file in UTF-8 is its text: with the byte order mark, what
/// follows that.
pub proof fn law_utf8_files_are_read(content: Seq<char>, bytes: Vec<u8>)
    ensures
        bytes@ == vstd::utf8::encode_utf8(content) && !has_bom(bytes@) ==> read_view(Ok(bytes))
            == Ok::<(Seq<char>, Encoding), EncodingErrorView>((content, Encoding::Utf8)),
        bytes@ == seq![0xEFu8, 0xBBu8, 0xBFu8] + vstd::utf8::encode_utf8(content) ==> read_view(
            Ok(bytes),
        ) == Ok::<(Seq<char>, Encoding), EncodingErrorView>((content, Encoding::Utf8Bom)),
{
    broadcast use {
        vstd::utf8::encode_utf8_valid_utf8,
        vstd::utf8::encode_utf8_decode_utf8,
    };
    let mark = seq![0xEFu8, 0xBBu8, 0xBFu8];
    let s = mark + vstd::utf8::encode_utf8(content);
    assert(s[0] == 0xEF && s[1] == 0xBB && s[2] == 0xBF);
    assert(s.skip(3) =~= vstd::utf8::encode_utf8(content));
}

/// Different encodings have different names.
pub proof fn law_encodings_have_names(a: Encoding, b: Encoding)
    ensures
        a.variant_name() == b.variant_name() ==> a == b,
{
    reveal_strlit("Utf8");
    reveal_strlit("Utf8Bom");
    reveal_strlit("Gbk");
    assert("Utf8"@.len() == 4 && "Utf8Bom"@.len() == 7 && "Gbk"@.len() == 3);
}

/// A message ends in the cause, and a failed read is told from a failed write.
pub proof fn law_failures_name_their_cause(e: Seq<char>)
    ensures
        e.is_suffix_of(EncodingErrorView::Io(e).message()),
        e.is_suffix_of(EncodingErrorView::Write(e).message()),
        EncodingErrorView::Io(e).message() != EncodingErrorView::Write(e).message(),
{
    reveal_strlit("failed to read file: ");
    reveal_strlit("failed to write file: ");
    let (r, w) = ("failed to read file: "@, "failed to write file: "@);
    assert(r.len() != w.len());
    assert((r + e).subrange(r.len() as int, (r + e).len() as int) =~= e);
    assert((w + e).subrange(w.len() as int, (w + e).len() as int) =~= e);
    assert((r + e).len() != (w + e).len());
}

} // verus!
