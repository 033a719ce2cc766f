//! The two formats of modules: how bytes become a binary, and what is said of
//! those that do not.

use vstd::prelude::*;
use vstd::utf8::{encode_utf8, valid_utf8};

verus! {

/// The bytes that every WebAssembly binary starts with.
pub open spec fn is_binary(bytes: Seq<u8>) -> bool {
    bytes.len() >= 4 && bytes.take(4) == seq![0x00u8, 0x61u8, 0x73u8, 0x6du8]
}

/// Why bytes stand for no binary.
#[verifier::external_type_specification]
#[verifier::external_body]
pub struct ExFormatError(wat::Error);

/// The binary that bytes stand for, in the text format or the binary one.
pub uninterp spec fn binary_of(bytes: Seq<u8>) -> Option<Seq<u8>>;

/// The bytes that an error is about.
pub uninterp spec fn error_bytes(e: wat::Error) -> Seq<u8>;

/// The path that an error was told, if any.
pub uninterp spec fn error_path(e: wat::Error) -> Option<Seq<char>>;

/// What is said of bytes that stand for no binary, from a path if it is told.
pub uninterp spec fn format_complaint(path: Option<Seq<char>>, bytes: Seq<u8>) -> Seq<char>;

/// A path as it is shown, which need not be text.
#[derive(Debug, PartialEq, Eq)]
pub struct PathText {
    /// The path, if it is text.
    pub text: Option<String>,
    /// The path with what is not text replaced.
    pub lossy: String,
}

/// A path as contracts speak of it.
pub struct PathTextView {
    pub text: Option<Seq<char>>,
    pub lossy: Seq<char>,
}

impl View for PathText {
    type V = PathTextView;

    open spec fn view(&self) -> PathTextView {
        PathTextView {
            text: match self.text {
                Some(text) => Some(text@),
                None => None,
            },
            lossy: self.lossy@,
        }
    }
}

/// The path that a complaint about the format of bytes names. One that is
/// not text is named only where the bytes are not text either: a complaint
/// about a place in a text names no such path.
pub open spec fn named_path(path: PathTextView, bytes: Seq<u8>) -> Option<Seq<char>> {
    match path.text {
        Some(text) => Some(text),
        None => if valid_utf8(bytes) {
            None
        } else {
            Some(path.lossy)
        },
    }
}

/// `b` is a character of which words of the text format are made, or a quote,
/// which makes one with what it touches.
pub open spec fn is_word_byte(b: u8) -> bool {
    ||| 0x21 <= b <= 0x27
    ||| 0x2a <= b <= 0x2b
    ||| 0x2d <= b <= 0x3a
    ||| 0x3c <= b <= 0x5a
    ||| b == 0x5c
    ||| 0x5e <= b <= 0x7a
    ||| b == 0x7c
    ||| b == 0x7e
}

/// A word stands in a text at position `i`, and goes on neither before nor
/// behind.
pub open spec fn is_word_at(text: Seq<u8>, word: Seq<u8>, i: int) -> bool {
    let end = i + word.len();
    &&& 0 <= i
    &&& end <= text.len()
    &&& text.subrange(i, end) == word
    &&& i == 0 || !is_word_byte(text[i - 1])
    &&& end == text.len() || !is_word_byte(text[end])
}

/// A word stands somewhere in a text.
pub open spec fn has_word(text: Seq<u8>, word: Seq<char>) -> bool {
    exists|i: int| is_word_at(text, encode_utf8(word), i)
}

/// A name, which starts with a dollar sign, stands behind the word `ref`, so
/// that the text may name the type of a reference.
pub open spec fn may_name_reference(text: Seq<u8>) -> bool {
    exists|i: int, j: int|
        #![trigger is_word_at(text, encode_utf8("ref"@), i), text[j]]
        is_word_at(text, encode_utf8("ref"@), i) && i < j < text.len() && text[j] == 0x24
}

/// A text may hold a component with the type of a core module that imports or
/// exports a global or a table of references whose type it names.
pub open spec fn may_name_item_type(text: Seq<u8>) -> bool {
    &&& has_word(text, "component"@)
    &&& has_word(text, "module"@)
    &&& has_word(text, "global"@) || has_word(text, "table"@)
    &&& may_name_reference(text)
}

/// A text is short enough for the lengths in its binary to be written. Imports
/// that share their module, each of which is an `item`, may make the binary
/// grow with the square of the text.
pub open spec fn short_enough(text: Seq<u8>) -> bool {
    &&& text.len() <= 0x1000_0000
    &&& text.len() <= 0x4_0000 || !has_word(text, "item"@)
}

/// Bytes can be read as a binary or in the text format.
pub open spec fn parsable(bytes: Seq<u8>) -> bool {
    ||| is_binary(bytes)
    ||| !valid_utf8(bytes)
    ||| short_enough(bytes) && !may_name_item_type(bytes)
}

/// Calls `wat::parse_bytes`, which gives bytes that are a binary back as they
/// are and reads anything else in the text format. Where the binary of a text
/// starts as binaries do, it stands for itself. An error has not been told a
/// path yet.
///
/// `parse_bytes` panics where a name is left when a text is written as a
/// binary. It looks all names up but those of reference types of globals and
/// tables in the type of a core module, which only components have. It panics
/// too where a length, of a token or in the binary, is more than a `u32`
/// holds. Apart from shared imports, a binary is not more than four times as
/// long as its text by much.
#[verifier::external_body]
fn parse_format(bytes: &[u8]) -> (r: Result<Vec<u8>, wat::Error>)
    requires
        parsable(bytes@),
    ensures
        match r {
            Ok(wasm) => binary_of(bytes@) == Some(wasm@),
            Err(e) => binary_of(bytes@) is None && error_bytes(e) == bytes@ && error_path(e) is None,
        },
        is_binary(bytes@) ==> r is Ok && r->Ok_0@ == bytes@,
        r matches Ok(wasm) ==> (is_binary(wasm@) ==> binary_of(wasm@) == Some(wasm@)),
{
    wat::parse_bytes(bytes).map(|wasm| wasm.into_owned())
}

/// Calls `wat::Error::set_path`, which tells an error the path to name.
#[verifier::external_body]
fn tell_path(e: &mut wat::Error, path: &str)
    requires
        error_path(*old(e)) is None,
    ensures
        error_path(*final(e)) == Some(path@),
        error_bytes(*final(e)) == error_bytes(*old(e)),
{
    e.set_path(path);
}

/// Calls the `Display` of `wat::Error`, whose text depends on the bytes and
/// the path alone.
#[verifier::external_body]
fn show_complaint(e: &wat::Error) -> (r: String)
    ensures
        r@ == format_complaint(error_path(*e), error_bytes(*e)),
{
    e.to_string()
}

/// Calls `std::str::from_utf8`, which accepts bytes that are valid UTF-8.
#[verifier::external_body]
fn is_text(bytes: &[u8]) -> (r: bool)
    ensures
        r == valid_utf8(bytes@),
{
    std::str::from_utf8(bytes).is_ok()
}

/// Whether a byte is a character of which words are made, or a quote.
fn makes_words(b: u8) -> (r: bool)
    ensures
        r == is_word_byte(b),
{
    (0x21 <= b && b <= 0x27) || (0x2a <= b && b <= 0x2b) || (0x2d <= b && b <= 0x3a) || (0x3c <= b
        && b <= 0x5a) || b == 0x5c || (0x5e <= b && b <= 0x7a) || b == 0x7c || b == 0x7e
}

/// Whether a word stands in a text at a position.
fn finds_word_at(text: &[u8], word: &[u8], i: usize) -> (r: bool)
    requires
        i + word@.len() <= text@.len(),
    ensures
        r == is_word_at(text@, word@, i as int),
{
    let length: usize = text.len();
    let end: usize = i + word.len();
    let mut k: usize = 0;
    while k < word.len() && text[i + k] == word[k]
        invariant
            length == text@.len(),
            k <= word@.len(),
            i + word@.len() <= text@.len(),
            forall|j: int| 0 <= j < k ==> text@[i + j] == #[trigger] word@[j],
        decreases word@.len() - k,
    {
        k += 1;
    }
    if k < word.len() {
        assert(text@.subrange(i as int, end as int)[k as int] == text@[i + k]);
        return false;
    }
    assert(text@.subrange(i as int, end as int) =~= word@);
    (i == 0 || !makes_words(text[i - 1])) && (end == length || !makes_words(text[end]))
}

/// The first position of a word in a text.
fn find_word(text: &[u8], word: &str) -> (r: Option<usize>)
    ensures
        match r {
            Some(i) => {
                &&& is_word_at(text@, encode_utf8(word@), i as int)
                &&& forall|j: int| j < i ==> !is_word_at(text@, encode_utf8(word@), j)
            },
            None => !has_word(text@, word@),
        },
{
    let wanted: &[u8] = word.as_bytes();
    let length: usize = text.len();
    let mut i: usize = 0;
    while i < length && wanted.len() <= length - i
        invariant
            length == text@.len(),
            i <= length,
            wanted@ == encode_utf8(word@),
            forall|j: int| j < i ==> !is_word_at(text@, encode_utf8(word@), j),
        decreases length - i,
    {
        if finds_word_at(text, wanted, i) {
            return Some(i);
        }
        i += 1;
    }
    if wanted.len() <= length - i && finds_word_at(text, wanted, i) {
        return Some(i);
    }
    None
}

/// Whether a dollar sign stands somewhere behind a position.
fn finds_name_behind(text: &[u8], i: usize) -> (r: bool)
    ensures
        r == exists|j: int| i < j < text@.len() && #[trigger] text@[j] == 0x24,
{
    let mut k: usize = text.len();
    while k > 0 && k - 1 > i
        invariant
            k <= text@.len(),
            forall|j: int| k <= j < text@.len() ==> #[trigger] text@[j] != 0x24,
        decreases k,
    {
        k -= 1;
        if text[k] == 0x24 {
            return true;
        }
    }
    false
}

/// Whether a text may name the type of a reference.
fn finds_named_reference(text: &[u8]) -> (r: bool)
    ensures
        r == may_name_reference(text@),
{
    match find_word(text, "ref") {
        Some(i) => {
            assert(is_word_at(text@, encode_utf8("ref"@), i as int));
            finds_name_behind(text, i)
        },
        None => false,
    }
}

/// Whether bytes can be read as a binary or in the text format.
pub fn is_parsable(bytes: &[u8]) -> (r: bool)
    ensures
        r == parsable(bytes@),
{
    if bytes.len() >= 4 && bytes[0] == 0x00 && bytes[1] == 0x61 && bytes[2] == 0x73 && bytes[3]
        == 0x6d {
        assert(bytes@.take(4) =~= seq![0x00u8, 0x61u8, 0x73u8, 0x6du8]);
        return true;
    }
    proof {
        if is_binary(bytes@) {
            assert(bytes@.take(4)[0] == bytes@[0] && bytes@.take(4)[1] == bytes@[1]);
            assert(bytes@.take(4)[2] == bytes@[2] && bytes@.take(4)[3] == bytes@[3]);
        }
    }
    if !is_text(bytes) {
        return true;
    }
    let short: bool = bytes.len() <= 0x1000_0000 && (bytes.len() <= 0x4_0000 || find_word(
        bytes,
        "item",
    ).is_none());
    short && !(find_word(bytes, "component").is_some() && find_word(bytes, "module").is_some() && (
    find_word(bytes, "global").is_some() || find_word(bytes, "table").is_some())
        && finds_named_reference(bytes))
}

/// The binary that bytes stand for, or what is said of them where they stand
/// for none.
pub fn read_format(path: &PathText, bytes: &[u8]) -> (r: Result<Vec<u8>, String>)
    requires
        parsable(bytes@),
    ensures
        match r {
            Ok(wasm) => binary_of(bytes@) == Some(wasm@),
            Err(complaint) => binary_of(bytes@) is None && complaint@ == format_complaint(
                named_path(path@, bytes@),
                bytes@,
            ),
        },
        is_binary(bytes@) ==> r is Ok && r->Ok_0@ == bytes@,
        binary_of(bytes@) matches Some(wasm) ==> (is_binary(wasm) ==> binary_of(wasm) == Some(
            wasm,
        )),
{
    match parse_format(bytes) {
        Ok(wasm) => Ok(wasm),
        Err(e) => {
            let mut e = e;
            match &path.text {
                Some(text) => tell_path(&mut e, text.as_str()),
                None => {
                    if !is_text(bytes) {
                        tell_path(&mut e, path.lossy.as_str());
                    }
                },
            }
            Err(show_complaint(&e))
        },
    }
}

/// A short text that holds no component can be parsed, whatever else it
/// holds, and so can every binary and everything that is no text.
pub proof fn law_modules_can_be_parsed(bytes: Seq<u8>)
    ensures
        bytes.len() >= 4 && bytes[0] == 0x00 && bytes[1] == 0x61 && bytes[2] == 0x73 && bytes[3]
            == 0x6d ==> parsable(bytes),
        !valid_utf8(bytes) ==> parsable(bytes),
        bytes.len() <= 0x4_0000 && (forall|i: int|
            0 <= i <= bytes.len() - 9 ==> #[trigger] bytes.subrange(i, i + 9) != encode_utf8(
                "component"@,
            )) ==> parsable(bytes),
{
    if bytes.len() >= 4 && bytes[0] == 0x00 && bytes[1] == 0x61 && bytes[2] == 0x73 && bytes[3]
        == 0x6d {
        assert(bytes.take(4) =~= seq![0x00u8, 0x61u8, 0x73u8, 0x6du8]);
    }
    reveal_strlit("component");
    vstd::utf8::is_ascii_chars_encode_utf8("component"@);
    if has_word(bytes, "component"@) {
        let i = choose|i: int| is_word_at(bytes, encode_utf8("component"@), i);
        assert(bytes.subrange(i, i + 9) == encode_utf8("component"@));
    }
}

} // verus!
