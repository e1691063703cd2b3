use vstd::prelude::*;

pub mod cache;
pub mod extension;
pub mod laws;
pub mod outside;
pub mod text;

use vstd::string::*;

use crate::cache::{CacheKey, CacheValue, SourceUrl};
use crate::extension::{extension_of, path_extension};
use crate::outside::{guess_mime_type, header_char, header_value_accepts, served_mime};
use crate::text::{ascii_lower, chars_of, same_text, to_ascii_lowercase, trim_start, trim_start_char};

verus! {

/// Extensions of the image files the server serves.
pub const ALLOWED_IMAGE_EXTENSIONS: [&'static str; 5] = ["jpg", "jpeg", "png", "webp", "gif"];

/// Extensions of every file the server serves: the images and PDF documents.
pub const ALLOWED_FILE_EXTENSIONS: [&'static str; 6] = ["jpg", "jpeg", "png", "webp", "gif", "pdf"];

/// The (lower-case) extensions the server serves.
pub open spec fn allowed_file_extension(e: Seq<char>) -> bool {
    ||| e == seq!['j', 'p', 'g']
    ||| e == seq!['j', 'p', 'e', 'g']
    ||| e == seq!['p', 'n', 'g']
    ||| e == seq!['w', 'e', 'b', 'p']
    ||| e == seq!['g', 'i', 'f']
    ||| e == seq!['p', 'd', 'f']
}

/// The served extensions are exactly the entries of `ALLOWED_FILE_EXTENSIONS`.
pub proof fn lemma_allowed_file_extensions()
    ensures
        ALLOWED_FILE_EXTENSIONS@.len() == 6,
        forall|i: int| 0 <= i < 6 ==> allowed_file_extension(#[trigger] ALLOWED_FILE_EXTENSIONS@[i]@),
        forall|e: Seq<char>| allowed_file_extension(e) ==> exists|i: int| 0 <= i < 6 && #[trigger] ALLOWED_FILE_EXTENSIONS@[i]@ == e,
{
    reveal_strlit("jpg");
    reveal_strlit("jpeg");
    reveal_strlit("png");
    reveal_strlit("webp");
    reveal_strlit("gif");
    reveal_strlit("pdf");
    assert(ALLOWED_FILE_EXTENSIONS@[0]@ == seq!['j', 'p', 'g']);
    assert(ALLOWED_FILE_EXTENSIONS@[1]@ == seq!['j', 'p', 'e', 'g']);
    assert(ALLOWED_FILE_EXTENSIONS@[2]@ == seq!['p', 'n', 'g']);
    assert(ALLOWED_FILE_EXTENSIONS@[3]@ == seq!['w', 'e', 'b', 'p']);
    assert(ALLOWED_FILE_EXTENSIONS@[4]@ == seq!['g', 'i', 'f']);
    assert(ALLOWED_FILE_EXTENSIONS@[5]@ == seq!['p', 'd', 'f']);
    assert forall|i: int| 0 <= i < 6 implies allowed_file_extension(#[trigger] ALLOWED_FILE_EXTENSIONS@[i]@) by {
        if i == 0 {} else if i == 1 {} else if i == 2 {} else if i == 3 {} else if i == 4 {} else {}
    }
}

/// Whether `extension` (in any letter case) is one the server serves.
pub fn is_allowed_file_extension(extension: &str) -> (r: bool)
    ensures
        r == allowed_file_extension(ascii_lower(extension@)),
{
    let lower = to_ascii_lowercase(extension);
    proof {
        lemma_allowed_file_extensions();
    }
    let mut i: usize = 0;
    while i < 6
        invariant
            i <= 6,
            lower@ == ascii_lower(extension@),
            ALLOWED_FILE_EXTENSIONS@.len() == 6,
            forall|j: int| 0 <= j < 6 ==> allowed_file_extension(#[trigger] ALLOWED_FILE_EXTENSIONS@[j]@),
            forall|e: Seq<char>| allowed_file_extension(e) ==> exists|j: int| 0 <= j < 6 && #[trigger] ALLOWED_FILE_EXTENSIONS@[j]@ == e,
            forall|j: int| 0 <= j < i ==> ALLOWED_FILE_EXTENSIONS@[j]@ != lower@,
        decreases 6 - i,
    {
        let candidate: &str = ALLOWED_FILE_EXTENSIONS[i];
        if same_text(lower.as_str(), candidate) {
            assert(allowed_file_extension(ALLOWED_FILE_EXTENSIONS@[i as int]@));
            return true;
        }
        i = i + 1;
    }
    false
}

/// The start of the paths of requests for a random file of one extension.
pub open spec fn random_route_prefix() -> Seq<char> {
    seq!['/', 'r', 'a', 'n', 'd', 'o', 'm', '/']
}

/// The extension a `/random/{extension}` request path asks for: what follows the prefix,
/// when it is not empty, holds no further separator and is a served extension.
pub open spec fn random_route_extension(path: Seq<char>) -> Option<Seq<char>> {
    if path.len() >= 8 && path.subrange(0, 8) == random_route_prefix() {
        let e = path.subrange(8, path.len() as int);
        if e.len() > 0 && !e.contains('/') && allowed_file_extension(ascii_lower(e)) {
            Some(e)
        } else {
            None
        }
    } else {
        None
    }
}

/// The extension asked for by a `/random/{extension}` request path, if it is one.
pub fn random_extension(path: &str) -> (r: Option<&str>)
    ensures
        match r {
            Some(e) => random_route_extension(path@) == Some(e@),
            None => random_route_extension(path@) is None,
        },
{
    let chars = chars_of(path);
    let prefix = chars_of("/random/");
    proof {
        reveal_strlit("/random/");
        assert(prefix@ == random_route_prefix());
    }
    let n = chars.len();
    if n < 8 {
        return None;
    }
    let mut i: usize = 0;
    while i < 8
        invariant
            i <= 8 <= n,
            n == path@.len(),
            chars@ == path@,
            prefix@ == random_route_prefix(),
            forall|j: int| 0 <= j < i ==> path@[j] == random_route_prefix()[j],
        decreases 8 - i,
    {
        if chars[i] != prefix[i] {
            assert(path@.subrange(0, 8)[i as int] != random_route_prefix()[i as int]);
            return None;
        }
        i = i + 1;
    }
    assert(path@.subrange(0, 8) =~= random_route_prefix());
    let ghost e = path@.subrange(8, n as int);
    if n == 8 {
        return None;
    }
    let mut j: usize = 8;
    while j < n
        invariant
            8 <= j <= n,
            n == path@.len(),
            chars@ == path@,
            e == path@.subrange(8, n as int),
            forall|k: int| 8 <= k < j ==> path@[k] != '/',
        decreases n - j,
    {
        if chars[j] == '/' {
            assert(e[j - 8] == '/');
            return None;
        }
        j = j + 1;
    }
    assert(!e.contains('/')) by {
        assert forall|k: int| 0 <= k < e.len() implies e[k] != '/' by {
            assert(e[k] == path@[k + 8]);
        }
    }
    let extension = path.substring_char(8, n);
    if is_allowed_file_extension(extension) {
        Some(extension)
    } else {
        None
    }
}

/// What a request path asks for.
#[derive(Debug, Clone, Copy, PartialEq, Eq, Structural)]
pub enum Route {
    /// `/`: the welcome text
    Welcome,
    /// `/health`: the health check
    Health,
    /// `/random`: a random file
    RandomImage,
    /// `/random/{extension}`: a random file of one extension
    RandomFile,
    /// `/sequential`: the next file in order
    SequentialImage,
    /// anything else
    NotFound,
}

/// The route of a request path, in the order the server tries them.
pub open spec fn route_of(path: Seq<char>) -> Route {
    if path == seq!['/'] {
        Route::Welcome
    } else if path == seq!['/', 'h', 'e', 'a', 'l', 't', 'h'] {
        Route::Health
    } else if path == seq!['/', 'r', 'a', 'n', 'd', 'o', 'm'] {
        Route::RandomImage
    } else if random_route_extension(path) is Some {
        Route::RandomFile
    } else if path == seq!['/', 's', 'e', 'q', 'u', 'e', 'n', 't', 'i', 'a', 'l'] {
        Route::SequentialImage
    } else {
        Route::NotFound
    }
}

/// The route of a request path.
pub fn route(path: &str) -> (r: Route)
    ensures
        r == route_of(path@),
{
    proof {
        reveal_strlit("/");
        reveal_strlit("/health");
        reveal_strlit("/random");
        reveal_strlit("/sequential");
        assert("/"@ =~= seq!['/']);
        assert("/health"@ =~= seq!['/', 'h', 'e', 'a', 'l', 't', 'h']);
        assert("/random"@ =~= seq!['/', 'r', 'a', 'n', 'd', 'o', 'm']);
        assert("/sequential"@ =~= seq!['/', 's', 'e', 'q', 'u', 'e', 'n', 't', 'i', 'a', 'l']);
    }
    if same_text(path, "/") {
        Route::Welcome
    } else if same_text(path, "/health") {
        Route::Health
    } else if same_text(path, "/random") {
        Route::RandomImage
    } else if random_extension(path).is_some() {
        Route::RandomFile
    } else if same_text(path, "/sequential") {
        Route::SequentialImage
    } else {
        Route::NotFound
    }
}

/// An HTTP reply: status code, content type (when one is set) and body.
#[derive(Debug, Clone, PartialEq, Eq)]
pub struct Reply {
    pub status: u16,
    pub content_type: Option<String>,
    pub body: Vec<u8>,
}

fn text_reply(status: u16, text: &str) -> (r: Reply)
    ensures
        r.status == status,
        r.content_type is None,
        r.body@ == text.spec_bytes(),
{
    Reply { status, content_type: None, body: text.as_bytes_vec() }
}

/// The replies that do not depend on the cache: the welcome text on `/`, "OK" on
/// `/health` and a 404 "Not Found" for unknown paths. `None` for the file routes.
pub fn fixed_reply(route: Route) -> (r: Option<Reply>)
    ensures
        route == Route::Welcome ==> (r matches Some(rep) && rep.status == 200 && rep.content_type is None
            && rep.body@ == "Welcome to the Random Image Server!".spec_bytes()),
        route == Route::Health ==> (r matches Some(rep) && rep.status == 200 && rep.content_type is None
            && rep.body@ == "OK".spec_bytes()),
        route == Route::NotFound ==> (r matches Some(rep) && rep.status == 404 && rep.content_type is None
            && rep.body@ == "Not Found".spec_bytes()),
        route == Route::RandomImage || route == Route::RandomFile || route == Route::SequentialImage
            ==> r is None,
{
    match route {
        Route::Welcome => Some(text_reply(200, "Welcome to the Random Image Server!")),
        Route::Health => Some(text_reply(200, "OK")),
        Route::NotFound => Some(text_reply(404, "Not Found")),
        _ => None,
    }
}

/// The reply when a file route fails: a 500 "Internal Server Error".
pub fn internal_server_error() -> (r: Reply)
    ensures
        r.status == 500,
        r.content_type is None,
        r.body@ == "Internal Server Error".spec_bytes(),
{
    text_reply(500, "Internal Server Error")
}

/// The reply to a file route: the reply it produced, or a 500 when it failed.
pub fn reply_or_internal_error(outcome: Result<Reply, ServeError>) -> (r: Reply)
    ensures
        outcome matches Ok(rep) ==> r == rep,
        outcome is Err ==> (r.status == 500 && r.content_type is None && r.body@
            == "Internal Server Error".spec_bytes()),
{
    match outcome {
        Ok(reply) => reply,
        Err(_) => internal_server_error(),
    }
}

/// Why a file route could not be served.
#[derive(Debug, Clone, PartialEq, Eq)]
pub enum ServeError {
    /// `/random` with an empty cache
    NoImagesConfigured,
    /// an extension the server does not serve
    UnsupportedExtension(String),
    /// no held file has the requested extension
    NoFilesWithExtension(String),
    /// `/sequential` with an empty cache
    NoImageSources,
    /// the key's file could not be read back from the cache
    ImageNotFound,
    /// the stored content type cannot stand in an HTTP header
    InvalidContentType,
}

impl ServeError {
    /// The text that describes the error.
    pub fn message(&self) -> (r: String)
        ensures
            match self {
                ServeError::NoImagesConfigured => r@
                    == "Failed to retrieve a random image, perhaps no images are configured"@,
                ServeError::UnsupportedExtension(e) => r@ == "Unsupported file extension: "@ + e@,
                ServeError::NoFilesWithExtension(e) => r@ == "No configured files with extension: "@ + e@,
                ServeError::NoImageSources => r@ == "No image sources configured"@,
                ServeError::ImageNotFound => r@ == "Image not found in cache"@,
                ServeError::InvalidContentType => r@ == "failed to parse header value"@,
            },
    {
        match self {
            ServeError::NoImagesConfigured => String::from_str(
                "Failed to retrieve a random image, perhaps no images are configured",
            ),
            ServeError::UnsupportedExtension(e) => {
                let mut m = String::from_str("Unsupported file extension: ");
                m.append(e.as_str());
                m
            },
            ServeError::NoFilesWithExtension(e) => {
                let mut m = String::from_str("No configured files with extension: ");
                m.append(e.as_str());
                m
            },
            ServeError::NoImageSources => String::from_str("No image sources configured"),
            ServeError::ImageNotFound => String::from_str("Image not found in cache"),
            ServeError::InvalidContentType => String::from_str("failed to parse header value"),
        }
    }
}

/// Whether every character of a text may stand in an HTTP header value.
pub open spec fn header_text(s: Seq<char>) -> bool {
    forall|i: int| 0 <= i < s.len() ==> header_char(#[trigger] s[i])
}

/// The outcome of serving the cached value `v`: status 200 with its content type and
/// bytes, or an error when its content type cannot stand in an HTTP header.
pub open spec fn serves_value(outcome: Result<Reply, ServeError>, v: CacheValue) -> bool {
    if header_text(v.content_type@) {
        &&& outcome is Ok
        &&& outcome->Ok_0.status == 200
        &&& outcome->Ok_0.content_type is Some
        &&& outcome->Ok_0.content_type->Some_0@ == v.content_type@
        &&& outcome->Ok_0.body@ == v.data@
    } else {
        outcome == Err::<Reply, ServeError>(ServeError::InvalidContentType)
    }
}

/// The reply that serves a cached file: status 200, its content type and its bytes;
/// `missing` when no file was found, and an error when the content type cannot stand
/// in an HTTP header.
pub fn image_reply(found: Option<CacheValue>, missing: ServeError) -> (r: Result<Reply, ServeError>)
    ensures
        found is None ==> r == Err::<Reply, ServeError>(missing),
        found matches Some(v) ==> serves_value(r, v),
{
    match found {
        None => Err(missing),
        Some(image) => {
            if header_value_accepts(image.content_type.as_str()) {
                Ok(Reply { status: 200, content_type: Some(image.content_type), body: image.data })
            } else {
                Err(ServeError::InvalidContentType)
            }
        },
    }
}

/// What a `/sequential` request does once the file of the key at its position was looked
/// up in the cache.
#[derive(Debug, PartialEq, Eq)]
pub enum SequentialStep {
    /// answer with this outcome
    Serve(Result<Reply, ServeError>),
    /// the key's file could not be read back: drop the key from the cache, and answer
    /// with `ServeError::ImageNotFound`
    Forget(CacheKey),
}

/// The step a `/sequential` request takes for the key `source` at its position: serve
/// the file found for it, or drop the key when none was found.
pub fn sequential_step(source: CacheKey, found: Option<CacheValue>) -> (r: SequentialStep)
    ensures
        found is None ==> (r matches SequentialStep::Forget(k) && k@ == source@),
        found matches Some(v) ==> (r matches SequentialStep::Serve(outcome) && serves_value(outcome, v)),
{
    match found {
        None => SequentialStep::Forget(source),
        Some(image) => SequentialStep::Serve(image_reply(Some(image), ServeError::ImageNotFound)),
    }
}

/// The extension a `/random/{extension}` request asks for, without leading dots and in
/// lower case; an error when the server does not serve it.
pub fn requested_extension(extension: &str) -> (r: Result<String, ServeError>)
    ensures
        allowed_file_extension(ascii_lower(trim_start(extension@, '.'))) ==> (r matches Ok(e) && e@
            == ascii_lower(trim_start(extension@, '.'))),
        !allowed_file_extension(ascii_lower(trim_start(extension@, '.'))) ==> (r matches Err(
            ServeError::UnsupportedExtension(e),
        ) && e@ == ascii_lower(trim_start(extension@, '.'))),
{
    let lower = to_ascii_lowercase(trim_start_char(extension, '.'));
    proof {
        lemma_ascii_lower_idempotent(trim_start(extension@, '.'));
    }
    if is_allowed_file_extension(lower.as_str()) {
        Ok(lower)
    } else {
        Err(ServeError::UnsupportedExtension(lower))
    }
}

/// Lower-casing twice is lower-casing once.
pub proof fn lemma_ascii_lower_idempotent(s: Seq<char>)
    ensures
        ascii_lower(ascii_lower(s)) == ascii_lower(s),
{
    assert(ascii_lower(ascii_lower(s)) =~= ascii_lower(s));
}

/// Which position of the key list a `/sequential` request serves, and the position the
/// next one serves; an error when the cache is empty.
pub fn sequential_pick(current_index: usize, size: usize) -> (r: Result<(usize, usize), ServeError>)
    ensures
        size == 0 ==> r == Err::<(usize, usize), ServeError>(ServeError::NoImageSources),
        size > 0 ==> r == Ok::<(usize, usize), ServeError>(
            ((current_index % size) as usize, ((current_index % size + 1) % (size as int)) as usize),
        ),
{
    if size == 0 {
        return Err(ServeError::NoImageSources);
    }
    let current = current_index % size;
    Ok((current, (current + 1) % size))
}

/// Why a source could not be loaded into the cache.
#[derive(Debug, Clone, PartialEq, Eq)]
pub enum ReadError {
    /// the path is not an existing regular file
    FileMissing(String),
    /// the file name has no extension
    NoExtension(String),
    /// the file's extension is not one the server serves
    UnsupportedExtension(String),
    /// reading the file failed, with the reason
    ReadFailed(String),
    /// no content type is known for the file's extension
    UnknownContentType(String),
    /// the URL's path has no extension
    UrlWithoutExtension(String),
    /// the URL's extension is not one the server serves
    UnsupportedUrlExtension(String),
    /// the request for the URL failed, with the reason
    FetchFailed(String),
    /// the server answered with a status other than success, with the status line
    FetchStatus(String),
    /// the answer has no Content-Type header
    MissingContentType,
    /// the answer's content type is not one the server serves, with that type
    UnsupportedContentType(String),
    /// reading the answer's body failed, with the reason
    BodyFailed(String),
}

impl ReadError {
    /// The text that describes the error.
    pub fn message(&self) -> (r: String)
        ensures
            match self {
                ReadError::FileMissing(p) => r@ == "File does not exist: "@ + p@,
                ReadError::NoExtension(p) => r@ == "File has no extension: "@ + p@,
                ReadError::UnsupportedExtension(p) => r@ == "Unsupported file extension: "@ + p@,
                ReadError::ReadFailed(e) => r@ == "Failed to read file: "@ + e@,
                ReadError::UnknownContentType(p) => r@
                    == "Failed to determine content type for file: "@ + p@,
                ReadError::UrlWithoutExtension(u) => r@ == "URL has no file extension: "@ + u@,
                ReadError::UnsupportedUrlExtension(u) => r@ == "Unsupported URL file extension: "@ + u@,
                ReadError::FetchFailed(e) => r@ == "Failed to fetch image from URL: "@ + e@,
                ReadError::FetchStatus(s) => r@ == "Failed to fetch image, status: "@ + s@,
                ReadError::MissingContentType => r@
                    == "Failed to get Content-Type header from response"@,
                ReadError::UnsupportedContentType(t) => r@ == "Unsupported content type: "@ + t@,
                ReadError::BodyFailed(e) => r@ == "Failed to read image bytes from response: "@ + e@,
            },
    {
        let (lead, detail): (&str, &str) = match self {
            ReadError::FileMissing(p) => ("File does not exist: ", p.as_str()),
            ReadError::NoExtension(p) => ("File has no extension: ", p.as_str()),
            ReadError::UnsupportedExtension(p) => ("Unsupported file extension: ", p.as_str()),
            ReadError::ReadFailed(e) => ("Failed to read file: ", e.as_str()),
            ReadError::UnknownContentType(p) => (
                "Failed to determine content type for file: ",
                p.as_str(),
            ),
            ReadError::UrlWithoutExtension(u) => ("URL has no file extension: ", u.as_str()),
            ReadError::UnsupportedUrlExtension(u) => ("Unsupported URL file extension: ", u.as_str()),
            ReadError::FetchFailed(e) => ("Failed to fetch image from URL: ", e.as_str()),
            ReadError::FetchStatus(s) => ("Failed to fetch image, status: ", s.as_str()),
            ReadError::MissingContentType => ("Failed to get Content-Type header from response", ""),
            ReadError::UnsupportedContentType(t) => ("Unsupported content type: ", t.as_str()),
            ReadError::BodyFailed(e) => ("Failed to read image bytes from response: ", e.as_str()),
        };
        let mut m = String::from_str(lead);
        m.append(detail);
        proof {
            reveal_strlit("");
            assert(m@ == lead@ + detail@);
            if self is MissingContentType {
                assert(m@ =~= lead@);
            }
        }
        m
    }
}

/// Whether a path names a file the server serves: it has an extension, and that
/// extension (in any letter case) is a served one.
pub open spec fn served_path(path: Seq<char>) -> bool {
    match path_extension(path) {
        Some(e) => allowed_file_extension(ascii_lower(e)),
        None => false,
    }
}

/// Whether the file at `path` is one the server serves, judged by its extension.
pub fn has_allowed_extension(path: &str) -> (r: bool)
    ensures
        r == served_path(path@),
{
    match extension_of(path) {
        Some(e) => is_allowed_file_extension(e),
        None => false,
    }
}

/// The checks made on a file path before its file is read: it must be an existing
/// regular file (`is_file`) whose extension is a served one.
pub fn check_file_path(path: &str, is_file: bool) -> (r: Result<(), ReadError>)
    ensures
        !is_file ==> (r matches Err(ReadError::FileMissing(p)) && p@ == path@),
        is_file && path_extension(path@) is None ==> (r matches Err(ReadError::NoExtension(p)) && p@
            == path@),
        is_file && path_extension(path@) is Some && !served_path(path@) ==> (r matches Err(
            ReadError::UnsupportedExtension(p),
        ) && p@ == path@),
        is_file && served_path(path@) ==> r is Ok,
{
    if !is_file {
        return Err(ReadError::FileMissing(path.to_owned()));
    }
    match extension_of(path) {
        None => Err(ReadError::NoExtension(path.to_owned())),
        Some(e) => {
            if is_allowed_file_extension(e) {
                Ok(())
            } else {
                Err(ReadError::UnsupportedExtension(path.to_owned()))
            }
        },
    }
}

/// The cached value of a file read from `path`: its bytes, with the content type guessed
/// from the path; an error when reading failed or no content type is known.
pub fn file_value(path: &str, contents: Result<Vec<u8>, String>) -> (r: Result<CacheValue, ReadError>)
    ensures
        contents matches Err(e) ==> r == Err::<CacheValue, ReadError>(ReadError::ReadFailed(e)),
        contents matches Ok(data) ==> match crate::outside::mime_first(path@) {
            Some(m) => r matches Ok(v) && v@ == (data@, m),
            None => r matches Err(ReadError::UnknownContentType(p)) && p@ == path@,
        },
        contents is Ok && served_path(path@) ==> (r matches Ok(v) && v.content_type@ == served_mime(
            ascii_lower(path_extension(path@)->0),
        )),
{
    match contents {
        Err(e) => Err(ReadError::ReadFailed(e)),
        Ok(data) => match guess_mime_type(path) {
            Some(content_type) => Ok(CacheValue { data, content_type }),
            None => Err(ReadError::UnknownContentType(path.to_owned())),
        },
    }
}

/// Reads a file into a cache value: `is_file` says whether `path` is an existing regular
/// file, and `contents` is what reading it gave, which only counts once the path passed
/// `check_file_path`.
pub fn read_file_from_path(path: &str, is_file: bool, contents: Result<Vec<u8>, String>) -> (r: Result<
    CacheValue,
    ReadError,
>)
    ensures
        !is_file ==> (r matches Err(ReadError::FileMissing(p)) && p@ == path@),
        is_file && path_extension(path@) is None ==> (r matches Err(ReadError::NoExtension(p)) && p@
            == path@),
        is_file && path_extension(path@) is Some && !served_path(path@) ==> (r matches Err(
            ReadError::UnsupportedExtension(p),
        ) && p@ == path@),
        is_file && served_path(path@) ==> match contents {
            Err(e) => r == Err::<CacheValue, ReadError>(ReadError::ReadFailed(e)),
            Ok(data) => r matches Ok(v) && v@ == (data@, served_mime(
                ascii_lower(path_extension(path@)->0),
            )),
        },
{
    match check_file_path(path, is_file) {
        Err(e) => Err(e),
        Ok(()) => file_value(path, contents),
    }
}

/// Reads a supported file into a cache value; the same as `read_file_from_path`.
pub fn read_image_from_path(path: &str, is_file: bool, contents: Result<Vec<u8>, String>) -> (r: Result<
    CacheValue,
    ReadError,
>)
    ensures
        !is_file ==> (r matches Err(ReadError::FileMissing(p)) && p@ == path@),
        is_file && path_extension(path@) is None ==> (r matches Err(ReadError::NoExtension(p)) && p@
            == path@),
        is_file && path_extension(path@) is Some && !served_path(path@) ==> (r matches Err(
            ReadError::UnsupportedExtension(p),
        ) && p@ == path@),
        is_file && served_path(path@) ==> match contents {
            Err(e) => r == Err::<CacheValue, ReadError>(ReadError::ReadFailed(e)),
            Ok(data) => r matches Ok(v) && v@ == (data@, served_mime(
                ascii_lower(path_extension(path@)->0),
            )),
        },
{
    read_file_from_path(path, is_file, contents)
}

/// The checks made on a URL before it is fetched: its path must have a served extension.
pub fn check_url_source(url: &SourceUrl) -> (r: Result<(), ReadError>)
    ensures
        path_extension(url@.1) is None ==> (r matches Err(ReadError::UrlWithoutExtension(u)) && u@
            == url@.0),
        path_extension(url@.1) is Some && !served_path(url@.1) ==> (r matches Err(
            ReadError::UnsupportedUrlExtension(u),
        ) && u@ == url@.0),
        served_path(url@.1) ==> r is Ok,
{
    match extension_of(url.path()) {
        None => Err(ReadError::UrlWithoutExtension(url.as_str().to_owned())),
        Some(e) => {
            if is_allowed_file_extension(e) {
                Ok(())
            } else {
                Err(ReadError::UnsupportedUrlExtension(url.as_str().to_owned()))
            }
        },
    }
}

/// The content types the server serves: those of its file extensions.
pub open spec fn served_content_type(t: Seq<char>) -> bool {
    ||| t == seq!['i', 'm', 'a', 'g', 'e', '/', 'j', 'p', 'e', 'g']
    ||| t == seq!['i', 'm', 'a', 'g', 'e', '/', 'p', 'n', 'g']
    ||| t == seq!['i', 'm', 'a', 'g', 'e', '/', 'w', 'e', 'b', 'p']
    ||| t == seq!['i', 'm', 'a', 'g', 'e', '/', 'g', 'i', 'f']
    ||| t == seq!['a', 'p', 'p', 'l', 'i', 'c', 'a', 't', 'i', 'o', 'n', '/', 'p', 'd', 'f']
}

/// Whether `content_type` is one the server serves.
pub fn is_served_content_type(content_type: &str) -> (r: bool)
    ensures
        r == served_content_type(content_type@),
{
    let jpeg = "image/jpeg";
    let png = "image/png";
    let webp = "image/webp";
    let gif = "image/gif";
    let pdf = "application/pdf";
    proof {
        reveal_strlit("image/jpeg");
        reveal_strlit("image/png");
        reveal_strlit("image/webp");
        reveal_strlit("image/gif");
        reveal_strlit("application/pdf");
        assert(jpeg@ == seq!['i', 'm', 'a', 'g', 'e', '/', 'j', 'p', 'e', 'g']);
        assert(png@ == seq!['i', 'm', 'a', 'g', 'e', '/', 'p', 'n', 'g']);
        assert(webp@ == seq!['i', 'm', 'a', 'g', 'e', '/', 'w', 'e', 'b', 'p']);
        assert(gif@ == seq!['i', 'm', 'a', 'g', 'e', '/', 'g', 'i', 'f']);
        assert(pdf@ == seq!['a', 'p', 'p', 'l', 'i', 'c', 'a', 't', 'i', 'o', 'n', '/', 'p', 'd', 'f']);
    }
    same_text(content_type, jpeg) || same_text(content_type, png) || same_text(content_type, webp)
        || same_text(content_type, gif) || same_text(content_type, pdf)
}

/// What an answer to a URL fetch is accepted with: a success status (200 to 299) and a
/// Content-Type header whose value is a served content type; that value becomes the
/// file's content type. `status_line` is the status as text, for the error.
pub fn accept_response(status: u16, status_line: String, content_type: Option<String>) -> (r: Result<
    String,
    ReadError,
>)
    ensures
        !(200 <= status <= 299) ==> r == Err::<String, ReadError>(ReadError::FetchStatus(status_line)),
        200 <= status <= 299 ==> match content_type {
            Some(ct) => if served_content_type(ct@) {
                r == Ok::<String, ReadError>(ct)
            } else {
                r == Err::<String, ReadError>(ReadError::UnsupportedContentType(ct))
            },
            None => r == Err::<String, ReadError>(ReadError::MissingContentType),
        },
{
    if !(200 <= status && status <= 299) {
        return Err(ReadError::FetchStatus(status_line));
    }
    match content_type {
        Some(ct) => {
            if is_served_content_type(ct.as_str()) {
                Ok(ct)
            } else {
                Err(ReadError::UnsupportedContentType(ct))
            }
        },
        None => Err(ReadError::MissingContentType),
    }
}

/// A configured source of files: a URL, or a path to a file or a directory.
#[derive(Debug, Clone, PartialEq, Eq)]
pub enum ImageSource {
    Url(SourceUrl),
    Path(String),
}

/// What a source path turned out to be on disk.
#[derive(Debug, Clone, Copy, PartialEq, Eq, Structural)]
pub enum PathKind {
    File,
    Directory,
    Other,
}

/// What loading a source into the cache does.
#[derive(Debug, Clone, Copy, PartialEq, Eq, Structural)]
pub enum SourcePlan {
    /// fetch the URL and store the answer under the URL
    Fetch,
    /// read the file and store it under its resolved path
    LoadFile,
    /// store every served file found under the directory
    ScanDirectory,
    /// skip a file whose extension is not served
    SkipExtension,
    /// skip a path that is neither a file nor a directory
    SkipPath,
}

/// What to do with a source: `kind` is what its path is on disk and `resolved` the path
/// once made canonical (both unused for a URL).
pub fn plan_source(source: &ImageSource, kind: PathKind, resolved: &str) -> (r: SourcePlan)
    ensures
        source is Url ==> r == SourcePlan::Fetch,
        source is Path && kind == PathKind::File ==> r == if served_path(resolved@) {
            SourcePlan::LoadFile
        } else {
            SourcePlan::SkipExtension
        },
        source is Path && kind == PathKind::Directory ==> r == SourcePlan::ScanDirectory,
        source is Path && kind == PathKind::Other ==> r == SourcePlan::SkipPath,
{
    match source {
        ImageSource::Url(_) => SourcePlan::Fetch,
        ImageSource::Path(_) => match kind {
            PathKind::File => {
                if has_allowed_extension(resolved) {
                    SourcePlan::LoadFile
                } else {
                    SourcePlan::SkipExtension
                }
            },
            PathKind::Directory => SourcePlan::ScanDirectory,
            PathKind::Other => SourcePlan::SkipPath,
        },
    }
}

} // verus!
