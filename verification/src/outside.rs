//! The calls this library makes into outside crates, each with the contract the
//! library relies on. Nothing here is proved: every item states what the crate's
//! source shows of the function it calls.

use vstd::prelude::*;

use rand::seq::IndexedRandom;

use crate::extension::path_extension;
use crate::allowed_file_extension;
use crate::text::ascii_lower;

verus! {

/// What `url::Url::parse` makes of `input`: `Some((serialization, path))` of the parsed
/// URL, `None` when it is refused.
pub uninterp spec fn url_parse(input: Seq<char>) -> Option<(Seq<char>, Seq<char>)>;

/// `url::Url::parse`, read back through `Url::as_str` (its serialization) and
/// `Url::path` (its path component). The result is the named parse of the input.
#[verifier::external_body]
pub(crate) fn parse_url(input: &str) -> (r: Option<(String, String)>)
    ensures
        match r {
            Some((href, path)) => url_parse(input@) == Some((href@, path@)),
            None => url_parse(input@) is None,
        },
{
    match url::Url::parse(input) {
        Ok(url) => Some((url.as_str().to_string(), url.path().to_string())),
        Err(_) => None,
    }
}

/// The lower-case hexadecimal text of the MD5 digest of `data`.
pub uninterp spec fn md5_hex_digest(data: Seq<u8>) -> Seq<char>;

/// `md5::compute`, formatted with the digest's `LowerHex` impl (two digits per byte).
/// The result is the named digest text of the bytes.
#[verifier::external_body]
pub(crate) fn md5_hex(data: &[u8]) -> (r: String)
    ensures
        r@ == md5_hex_digest(data@),
{
    format!("{:x}", md5::compute(data))
}

/// A hexadecimal digit in lower case, or the hyphen that `uuid` puts between groups.
pub open spec fn uuid_char(c: char) -> bool {
    ('0' <= c && c <= '9') || ('a' <= c && c <= 'f') || c == '-'
}

/// `uuid::Uuid::new_v4` written with its `Display` impl: the hyphenated lower-case form,
/// 36 characters. The identifier itself is random, so only its shape is stated.
/// (`uuid` panics when the operating system gives no randomness; that case is not
/// excluded here.)
#[verifier::external_body]
pub(crate) fn fresh_uuid_text() -> (r: String)
    ensures
        r@.len() == 36,
        forall|i: int| 0 <= i < 36 ==> uuid_char(#[trigger] r@[i]),
{
    uuid::Uuid::new_v4().to_string()
}

/// The content type that `mime_guess` gives first for a path.
pub uninterp spec fn mime_first(path: Seq<char>) -> Option<Seq<char>>;

/// The content type of a served extension, as `mime_guess`'s table lists it.
pub open spec fn served_mime(e: Seq<char>) -> Seq<char> {
    if e == seq!['j', 'p', 'g'] || e == seq!['j', 'p', 'e', 'g'] {
        seq!['i', 'm', 'a', 'g', 'e', '/', 'j', 'p', 'e', 'g']
    } else if e == seq!['p', 'n', 'g'] {
        seq!['i', 'm', 'a', 'g', 'e', '/', 'p', 'n', 'g']
    } else if e == seq!['w', 'e', 'b', 'p'] {
        seq!['i', 'm', 'a', 'g', 'e', '/', 'w', 'e', 'b', 'p']
    } else if e == seq!['g', 'i', 'f'] {
        seq!['i', 'm', 'a', 'g', 'e', '/', 'g', 'i', 'f']
    } else {
        seq!['a', 'p', 'p', 'l', 'i', 'c', 'a', 't', 'i', 'o', 'n', '/', 'p', 'd', 'f']
    }
}

/// `mime_guess::from_path(path).first()`, written with `Mime`'s `Display` impl.
/// The result is the named guess for the path. `from_path` looks at the path's extension
/// only (`Path::extension`) and gives no guess without one; its table is looked up
/// without regard to ASCII case and maps "jpg" and "jpeg" to "image/jpeg", "png" to
/// "image/png", "webp" to "image/webp", "gif" to "image/gif" and "pdf" to
/// "application/pdf", each as the only entry.
#[verifier::external_body]
pub(crate) fn guess_mime_type(path: &str) -> (r: Option<String>)
    ensures
        r matches Some(m) ==> mime_first(path@) == Some(m@),
        r is None ==> mime_first(path@) is None,
        path_extension(path@) is None ==> r is None,
        path_extension(path@) is Some && allowed_file_extension(ascii_lower(path_extension(path@)->0))
            ==> r is Some && r->0@ == served_mime(ascii_lower(path_extension(path@)->0)),
{
    mime_guess::from_path(path).first().map(|m| m.to_string())
}

/// Whether an HTTP header value may hold a character: a tab, or anything from the
/// space on except DEL.
pub open spec fn header_char(c: char) -> bool {
    c == '\t' || (' ' <= c && c != '\u{7f}')
}

/// `hyper::header::HeaderValue::from_str(text).is_ok()`: the `http` crate accepts every
/// byte from 32 on except 127, and the tab; a character beyond ASCII is encoded in bytes
/// from 128 on, all of which it accepts.
#[verifier::external_body]
pub(crate) fn header_value_accepts(text: &str) -> (r: bool)
    ensures
        r == (forall|i: int| 0 <= i < text@.len() ==> header_char(#[trigger] text@[i])),
{
    hyper::header::HeaderValue::from_str(text).is_ok()
}

/// `rand::seq::IndexedRandom::choose` with the thread-local generator (`rand::rng()`):
/// one of `candidates`, or none when there is none. Which one is left to chance.
/// (`rand::rng()` panics when the operating system gives no randomness to seed the
/// generator; that case is not excluded here.)
#[verifier::external_body]
pub(crate) fn choose_candidate(candidates: &[usize]) -> (r: Option<usize>)
    ensures
        r is None <==> candidates@.len() == 0,
        r matches Some(x) ==> candidates@.contains(x),
{
    candidates.choose(&mut rand::rng()).copied()
}

} // verus!
